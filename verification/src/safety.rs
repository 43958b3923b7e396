//! Detection of commands that look destructive.
use vstd::prelude::*;

use crate::text::{chars_of, contains, find_exec, lower, lower_exec};

verus! {

/// The substrings that mark a command as destructive, matched against the
/// ASCII-lowercased command.
pub open spec fn destructive_patterns() -> Seq<&'static str> {
    seq![
        "kill ",
        "killall ",
        "pkill ",
        "rm ",
        "rm -",
        "rmdir ",
        "dd ",
        "mkfs",
        "shutdown",
        "reboot",
        "truncate ",
        "drop ",
        "> /dev/",
    ]
}

/// `command`, lowercased in ASCII, contains one of the destructive patterns.
pub open spec fn looks_destructive(command: Seq<char>) -> bool {
    exists|i: int|
        0 <= i < destructive_patterns().len() && contains(
            lower(command),
            #[trigger] destructive_patterns()[i]@,
        )
}

fn destructive_pattern_list() -> (r: Vec<&'static str>)
    ensures
        r@ == destructive_patterns(),
{
    let r = vec![
        "kill ",
        "killall ",
        "pkill ",
        "rm ",
        "rm -",
        "rmdir ",
        "dd ",
        "mkfs",
        "shutdown",
        "reboot",
        "truncate ",
        "drop ",
        "> /dev/",
    ];
    assert(r@ =~= destructive_patterns());
    r
}

/// Whether `command` looks destructive: whether its ASCII-lowercased form
/// contains `kill `, `rm `, `dd `, `mkfs`, `shutdown`, `> /dev/` or another of
/// [`destructive_patterns`].
pub fn is_destructive(command: &str) -> (r: bool)
    ensures
        r == looks_destructive(command@),
{
    let lowered = lower_exec(&chars_of(command));
    let patterns = destructive_pattern_list();
    let mut i: usize = 0;
    while i < patterns.len()
        invariant
            patterns@ == destructive_patterns(),
            lowered@ == lower(command@),
            i <= patterns@.len(),
            forall|j: int| 0 <= j < i ==> !contains(lower(command@), destructive_patterns()[j]@),
        decreases patterns@.len() - i,
    {
        let pattern = chars_of(patterns[i]);
        if find_exec(&lowered, &pattern).is_some() {
            assert(contains(lower(command@), destructive_patterns()[i as int]@));
            return true;
        }
        i = i + 1;
    }
    false
}

/// A command looks destructive exactly when its ASCII-lowercased form
/// contains `kill `, `killall `, `pkill `, `rm `, `rm -`, `rmdir `, `dd `,
/// `mkfs`, `shutdown`, `reboot`, `truncate `, `drop ` or `> /dev/`.
pub proof fn lemma_destructive_exactly(command: Seq<char>)
    ensures
        looks_destructive(command) <==> (contains(lower(command), "kill "@)
            || contains(lower(command), "killall "@)
            || contains(lower(command), "pkill "@)
            || contains(lower(command), "rm "@)
            || contains(lower(command), "rm -"@)
            || contains(lower(command), "rmdir "@)
            || contains(lower(command), "dd "@)
            || contains(lower(command), "mkfs"@)
            || contains(lower(command), "shutdown"@)
            || contains(lower(command), "reboot"@)
            || contains(lower(command), "truncate "@)
            || contains(lower(command), "drop "@)
            || contains(lower(command), "> /dev/"@)),
{
    if looks_destructive(command) {
        let i = choose|i: int|
            0 <= i < destructive_patterns().len() && contains(
                lower(command),
                #[trigger] destructive_patterns()[i]@,
            );
        if i == 0 {
            assert(destructive_patterns()[i]@ == "kill "@);
        } else if i == 1 {
            assert(destructive_patterns()[i]@ == "killall "@);
        } else if i == 2 {
            assert(destructive_patterns()[i]@ == "pkill "@);
        } else if i == 3 {
            assert(destructive_patterns()[i]@ == "rm "@);
        } else if i == 4 {
            assert(destructive_patterns()[i]@ == "rm -"@);
        } else if i == 5 {
            assert(destructive_patterns()[i]@ == "rmdir "@);
        } else if i == 6 {
            assert(destructive_patterns()[i]@ == "dd "@);
        } else if i == 7 {
            assert(destructive_patterns()[i]@ == "mkfs"@);
        } else if i == 8 {
            assert(destructive_patterns()[i]@ == "shutdown"@);
        } else if i == 9 {
            assert(destructive_patterns()[i]@ == "reboot"@);
        } else if i == 10 {
            assert(destructive_patterns()[i]@ == "truncate "@);
        } else if i == 11 {
            assert(destructive_patterns()[i]@ == "drop "@);
        } else if i == 12 {
            assert(destructive_patterns()[i]@ == "> /dev/"@);
        }
    }
    if contains(lower(command), "kill "@) {
        assert(destructive_patterns()[0]@ == "kill "@);
    }
    if contains(lower(command), "killall "@) {
        assert(destructive_patterns()[1]@ == "killall "@);
    }
    if contains(lower(command), "pkill "@) {
        assert(destructive_patterns()[2]@ == "pkill "@);
    }
    if contains(lower(command), "rm "@) {
        assert(destructive_patterns()[3]@ == "rm "@);
    }
    if contains(lower(command), "rm -"@) {
        assert(destructive_patterns()[4]@ == "rm -"@);
    }
    if contains(lower(command), "rmdir "@) {
        assert(destructive_patterns()[5]@ == "rmdir "@);
    }
    if contains(lower(command), "dd "@) {
        assert(destructive_patterns()[6]@ == "dd "@);
    }
    if contains(lower(command), "mkfs"@) {
        assert(destructive_patterns()[7]@ == "mkfs"@);
    }
    if contains(lower(command), "shutdown"@) {
        assert(destructive_patterns()[8]@ == "shutdown"@);
    }
    if contains(lower(command), "reboot"@) {
        assert(destructive_patterns()[9]@ == "reboot"@);
    }
    if contains(lower(command), "truncate "@) {
        assert(destructive_patterns()[10]@ == "truncate "@);
    }
    if contains(lower(command), "drop "@) {
        assert(destructive_patterns()[11]@ == "drop "@);
    }
    if contains(lower(command), "> /dev/"@) {
        assert(destructive_patterns()[12]@ == "> /dev/"@);
    }
}

} // verus!
