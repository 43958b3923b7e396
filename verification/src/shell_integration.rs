//! The zsh integration block and its insertion into `~/.zshrc`.
use vstd::prelude::*;

use crate::path::{join, join_path};
use crate::text::{
    chars_of, contains, ends_with, find, find_exec, is_blank, lemma_find, lemma_find_is, lemma_find_none,
    lemma_trim_end_is_prefix, lemma_trim_leading_newlines, matches_at, push_char, push_chars,
    starts_with, str_eq, trim, trim_end, trim_end_len, trim_leading_newlines,
};

verus! {

pub const ZSH_MARKER_START: &'static str = "# >>> quickcommand zsh integration >>>";

pub const ZSH_MARKER_END: &'static str = "# <<< quickcommand zsh integration <<<";

/// The text of the zsh function from after the start marker up to the first binary name.
pub const ZSH_FUNCTION_HEAD: &'static str = "\nqc() {\n  if [[ $# -eq 0 ]]; then\n    command ";

/// The text between the first and the second binary name.
pub const ZSH_FUNCTION_PASSTHROUGH: &'static str = " \"$@\"\n    return $?\n  fi\n\n  case \"$1\" in\n    --execute|--emit-command|--help|-h|--version|-v|init|config)\n      command ";

/// The text between the second and the third binary name.
pub const ZSH_FUNCTION_CAPTURE: &'static str = " \"$@\"\n      return $?\n      ;;\n  esac\n\n  local cmd\n  cmd=\"$(command ";

/// The text from after the third binary name up to the end marker.
pub const ZSH_FUNCTION_TAIL: &'static str = " --emit-command \"$@\")\" || return $?\n  if [[ -n \"$cmd\" ]]; then\n    print -z -- \"$cmd\"\n  fi\n}\n";

/// The managed block for the binary `binary_name`: the start marker, a zsh
/// function `qc` that puts the output of `<binary_name> --emit-command ...`
/// on the next prompt with `print -z`, and the end marker.
pub open spec fn zsh_integration_text(binary_name: Seq<char>) -> Seq<char> {
    ZSH_MARKER_START@ + ZSH_FUNCTION_HEAD@ + binary_name + ZSH_FUNCTION_PASSTHROUGH@ + binary_name
        + ZSH_FUNCTION_CAPTURE@ + binary_name + ZSH_FUNCTION_TAIL@ + ZSH_MARKER_END@ + seq!['\n']
}

/// `p` followed by a newline unless it is empty or already ends with one.
pub open spec fn newline_terminated(p: Seq<char>) -> Seq<char> {
    if p.len() > 0 && p.last() != '\n' {
        p.push('\n')
    } else {
        p
    }
}

/// `existing` with the text from the start marker at `start` through the end
/// marker at `end` replaced by the trimmed block `b`.
pub open spec fn replace_managed(existing: Seq<char>, b: Seq<char>, start: int, end: int) -> Seq<
    char,
> {
    let head = newline_terminated(existing.take(start));
    let suffix = trim_leading_newlines(existing.skip(end + ZSH_MARKER_END@.len()));
    if suffix.len() == 0 {
        head + b + seq!['\n']
    } else {
        head + b + seq!['\n', '\n'] + suffix
    }
}

/// `existing` with the trimmed block `b` appended after a blank line.
pub open spec fn append_managed(existing: Seq<char>, b: Seq<char>) -> Seq<char> {
    if trim(existing).len() == 0 {
        b + seq!['\n']
    } else {
        trim_end(existing) + seq!['\n', '\n'] + b + seq!['\n']
    }
}

/// What `upsert_managed_block(existing, block)` returns: where `existing`
/// holds the start marker and, not before it, the end marker, that region is
/// replaced by the block; otherwise the block is appended.
pub open spec fn upsert_block(existing: Seq<char>, block: Seq<char>) -> Seq<char> {
    let b = trim_end(block);
    match (find(existing, ZSH_MARKER_START@), find(existing, ZSH_MARKER_END@)) {
        (Some(start), Some(end)) => if start <= end {
            replace_managed(existing, b, start, end)
        } else {
            append_managed(existing, b)
        },
        _ => append_managed(existing, b),
    }
}

/// `home/.zshrc`.
pub fn zshrc_path(home: &str) -> (r: String)
    ensures
        r@ == join(home@, ".zshrc"@),
{
    proof {
        reveal_strlit(".zshrc");
    }
    join_path(home, ".zshrc")
}

/// The managed block for the binary `binary_name`.
pub fn render_zsh_integration(binary_name: &str) -> (r: String)
    ensures
        r@ == zsh_integration_text(binary_name@),
{
    let mut r = String::from_str(ZSH_MARKER_START);
    r.append(ZSH_FUNCTION_HEAD);
    r.append(binary_name);
    r.append(ZSH_FUNCTION_PASSTHROUGH);
    r.append(binary_name);
    r.append(ZSH_FUNCTION_CAPTURE);
    r.append(binary_name);
    r.append(ZSH_FUNCTION_TAIL);
    r.append(ZSH_MARKER_END);
    push_char(&mut r, '\n');
    r
}

/// Inserts `block` into `existing`, replacing a managed block that is already there.
pub fn upsert_managed_block(existing: &str, block: &str) -> (r: String)
    ensures
        r@ == upsert_block(existing@, block@),
{
    let ex = chars_of(existing);
    let exlen = ex.len();
    let bl = chars_of(block);
    let start_marker = chars_of(ZSH_MARKER_START);
    let end_marker = chars_of(ZSH_MARKER_END);
    let blen = trim_end_len(&bl);
    let ghost b = trim_end(block@);
    let found_start = find_exec(&ex, &start_marker);
    let found_end = find_exec(&ex, &end_marker);
    proof {
        lemma_find(ex@, start_marker@);
        lemma_find(ex@, end_marker@);
    }
    if let (Some(start), Some(end)) = (found_start, found_end) {
        if start <= end {
            assert(end + end_marker@.len() <= exlen);
            let end_inclusive = end + end_marker.len();
            let mut updated = String::new();
            push_chars(&mut updated, &ex, 0, start);
            assert(updated@ =~= ex@.take(start as int));
            if start > 0 && ex[start - 1] != '\n' {
                push_char(&mut updated, '\n');
            }
            assert(updated@ =~= newline_terminated(ex@.take(start as int)));
            push_chars(&mut updated, &bl, 0, blen);
            push_char(&mut updated, '\n');
            assert(updated@ =~= newline_terminated(ex@.take(start as int)) + b + seq!['\n']);
            let mut k = end_inclusive;
            assert(ex@.skip(k as int) =~= ex@.skip(end_inclusive as int));
            while k < ex.len() && ex[k] == '\n'
                invariant
                    end_inclusive <= k <= ex@.len(),
                    trim_leading_newlines(ex@.skip(end_inclusive as int)) == trim_leading_newlines(
                        ex@.skip(k as int),
                    ),
                decreases ex@.len() - k,
            {
                assert(ex@.skip(k as int).drop_first() =~= ex@.skip(k + 1));
                k = k + 1;
            }
            let ghost suffix = trim_leading_newlines(ex@.skip(end_inclusive as int));
            if k < ex.len() {
                assert(suffix =~= ex@.skip(k as int));
                push_char(&mut updated, '\n');
                push_chars(&mut updated, &ex, k, ex.len());
                assert(ex@.subrange(k as int, ex@.len() as int) =~= suffix);
                assert(updated@ =~= newline_terminated(ex@.take(start as int)) + b + seq![
                    '\n',
                    '\n',
                ] + suffix);
            } else {
                assert(suffix =~= Seq::<char>::empty());
            }
            return updated;
        }
    }
    let mut updated = String::new();
    if is_blank(&ex) {
        push_chars(&mut updated, &bl, 0, blen);
        push_char(&mut updated, '\n');
    } else {
        let elen = trim_end_len(&ex);
        push_chars(&mut updated, &ex, 0, elen);
        push_char(&mut updated, '\n');
        push_char(&mut updated, '\n');
        push_chars(&mut updated, &bl, 0, blen);
        push_char(&mut updated, '\n');
        assert(updated@ =~= trim_end(ex@) + seq!['\n', '\n'] + b + seq!['\n']);
    }
    updated
}

/// The new content of the rc file `existing` once the managed block for
/// `binary_name` is in it, or `None` where that leaves it unchanged.
pub fn zsh_integration_update(existing: &str, binary_name: &str) -> (r: Option<String>)
    ensures
        match r {
            Some(updated) => updated@ == upsert_block(existing@, zsh_integration_text(
                binary_name@,
            )) && updated@ != existing@,
            None => upsert_block(existing@, zsh_integration_text(binary_name@)) == existing@,
        },
{
    let block = render_zsh_integration(binary_name);
    let updated = upsert_managed_block(existing, block.as_str());
    if str_eq(updated.as_str(), existing) {
        None
    } else {
        Some(updated)
    }
}

// ---------------------------------------------------------------------------
// Idempotence
// ---------------------------------------------------------------------------

/// `block`, trimmed at its end, starts with the start marker, ends with the
/// end marker, and holds the end marker nowhere else.
pub open spec fn is_managed_block(block: Seq<char>) -> bool {
    let b = trim_end(block);
    &&& starts_with(b, ZSH_MARKER_START@)
    &&& ends_with(b, ZSH_MARKER_END@)
    &&& find(b, ZSH_MARKER_END@) == Some(b.len() - ZSH_MARKER_END@.len())
}

/// `existing` holds both markers with the start marker first, or neither.
pub open spec fn markers_consistent(existing: Seq<char>) -> bool {
    match (find(existing, ZSH_MARKER_START@), find(existing, ZSH_MARKER_END@)) {
        (Some(start), Some(end)) => start <= end,
        (None, None) => true,
        _ => false,
    }
}

pub open spec fn has_newline(s: Seq<char>) -> bool {
    exists|i: int| 0 <= i < s.len() && s[i] == '\n'
}

proof fn lemma_markers()
    ensures
        ZSH_MARKER_START@.len() > 0,
        ZSH_MARKER_END@.len() > 0,
        !has_newline(ZSH_MARKER_START@),
        !has_newline(ZSH_MARKER_END@),
{
    reveal_strlit("# >>> quickcommand zsh integration >>>");
    reveal_strlit("# <<< quickcommand zsh integration <<<");
}

/// A match in `p + q` that starts inside `p`, where `p` has no match and
/// ends with a newline the pattern does not hold, cannot exist.
proof fn lemma_no_match_in_head(p: Seq<char>, q: Seq<char>, pat: Seq<char>, j: int)
    requires
        !has_newline(pat),
        pat.len() > 0,
        p.len() == 0 || p.last() == '\n',
        find(p, pat) is None,
        j < p.len(),
    ensures
        !matches_at(p + q, pat, j),
{
    lemma_find(p, pat);
    if matches_at(p + q, pat, j) {
        if j + pat.len() <= p.len() {
            assert((p + q).subrange(j, j + pat.len()) =~= p.subrange(j, j + pat.len()));
            assert(matches_at(p, pat, j));
        } else {
            let k = p.len() - 1 - j;
            assert(pat[k] == (p + q).subrange(j, j + pat.len())[k]);
            assert(pat[k] == '\n');
        }
    }
}

/// Finding a pattern past a head without matches.
proof fn lemma_find_after_head(p: Seq<char>, q: Seq<char>, pat: Seq<char>)
    requires
        !has_newline(pat),
        pat.len() > 0,
        p.len() == 0 || p.last() == '\n',
        find(p, pat) is None,
    ensures
        find(p + q, pat) == match find(q, pat) {
            Some(i) => Some(i + p.len()),
            None => None::<int>,
        },
{
    let s = p + q;
    lemma_find(q, pat);
    assert forall|j: int| j < p.len() implies !matches_at(s, pat, j) by {
        lemma_no_match_in_head(p, q, pat, j);
    }
    assert forall|j: int| j >= p.len() implies matches_at(s, pat, j) == matches_at(
        q,
        pat,
        j - p.len(),
    ) by {
        if j + pat.len() <= s.len() {
            assert(s.subrange(j, j + pat.len()) =~= q.subrange(
                j - p.len(),
                j - p.len() + pat.len(),
            ));
        }
    }
    match find(q, pat) {
        Some(i) => {
            assert forall|j: int| j < i + p.len() implies !matches_at(s, pat, j) by {
                if j >= p.len() {
                    assert(!matches_at(q, pat, j - p.len()));
                }
            }
            lemma_find_is(s, pat, i + p.len());
        },
        None => {
            assert forall|j: int| !matches_at(s, pat, j) by {
                if j >= p.len() {
                    assert(!matches_at(q, pat, j - p.len()));
                }
            }
            lemma_find_none(s, pat);
        },
    }
}

/// A first match in `p` stays the first match in `p + q`.
proof fn lemma_find_in_prefix(p: Seq<char>, q: Seq<char>, pat: Seq<char>, i: int)
    requires
        find(p, pat) == Some(i),
    ensures
        find(p + q, pat) == Some(i),
{
    lemma_find(p, pat);
    let s = p + q;
    assert(s.subrange(i, i + pat.len()) =~= p.subrange(i, i + pat.len()));
    assert forall|j: int| j < i implies !matches_at(s, pat, j) by {
        if matches_at(s, pat, j) {
            assert(s.subrange(j, j + pat.len()) =~= p.subrange(j, j + pat.len()));
            assert(matches_at(p, pat, j));
        }
    }
    lemma_find_is(s, pat, i);
}

/// A sequence that starts with the pattern finds it at 0.
proof fn lemma_find_at_start(s: Seq<char>, pat: Seq<char>)
    requires
        starts_with(s, pat),
    ensures
        find(s, pat) == Some(0int),
{
    assert(s.subrange(0, pat.len() as int) =~= s.take(pat.len() as int));
    lemma_find_is(s, pat, 0);
}

/// A prefix of a text without matches has none.
proof fn lemma_find_none_take(s: Seq<char>, pat: Seq<char>, k: int)
    requires
        find(s, pat) is None,
        0 <= k <= s.len(),
    ensures
        find(s.take(k), pat) is None,
{
    lemma_find(s, pat);
    assert forall|j: int| !matches_at(s.take(k), pat, j) by {
        if matches_at(s.take(k), pat, j) {
            assert(s.take(k).subrange(j, j + pat.len()) =~= s.subrange(j, j + pat.len()));
            assert(matches_at(s, pat, j));
        }
    }
    lemma_find_none(s.take(k), pat);
}

/// The part of a text before index `k` holds no match when every match starts at `k` or later.
proof fn lemma_no_match_before(s: Seq<char>, pat: Seq<char>, k: int)
    requires
        pat.len() > 0,
        0 <= k <= s.len(),
        forall|j: int| j < k ==> !matches_at(s, pat, j),
    ensures
        find(s.take(k), pat) is None,
{
    assert forall|j: int| !matches_at(s.take(k), pat, j) by {
        if matches_at(s.take(k), pat, j) {
            assert(s.take(k).subrange(j, j + pat.len()) =~= s.subrange(j, j + pat.len()));
            assert(matches_at(s, pat, j));
        }
    }
    lemma_find_none(s.take(k), pat);
}

/// Adding a newline a pattern does not hold creates no match.
proof fn lemma_find_none_newline(p: Seq<char>, pat: Seq<char>)
    requires
        find(p, pat) is None,
        !has_newline(pat),
        pat.len() > 0,
    ensures
        find(newline_terminated(p), pat) is None,
        find(p + seq!['\n', '\n'], pat) is None,
{
    lemma_find(p, pat);
    let q1 = newline_terminated(p);
    assert forall|j: int| !matches_at(q1, pat, j) by {
        if matches_at(q1, pat, j) {
            if j + pat.len() <= p.len() {
                assert(q1.subrange(j, j + pat.len()) =~= p.subrange(j, j + pat.len()));
                assert(matches_at(p, pat, j));
            } else {
                let k = p.len() - j;
                assert(pat[k] == q1.subrange(j, j + pat.len())[k]);
            }
        }
    }
    lemma_find_none(q1, pat);
    let q2 = p + seq!['\n', '\n'];
    assert forall|j: int| !matches_at(q2, pat, j) by {
        if matches_at(q2, pat, j) {
            if j + pat.len() <= p.len() {
                assert(q2.subrange(j, j + pat.len()) =~= p.subrange(j, j + pat.len()));
                assert(matches_at(p, pat, j));
            } else {
                let k = if j >= p.len() {
                    0
                } else {
                    p.len() - j
                };
                assert(pat[k] == q2.subrange(j, j + pat.len())[k]);
            }
        }
    }
    lemma_find_none(q2, pat);
}

proof fn lemma_trim_leading_newlines_prefix(s: Seq<char>)
    requires
        s.len() == 0 || s[0] != '\n',
    ensures
        trim_leading_newlines(seq!['\n'] + s) == s,
        trim_leading_newlines(seq!['\n', '\n'] + s) == s,
        trim_leading_newlines(s) == s,
{
    assert(trim_leading_newlines(s) == s);
    assert((seq!['\n'] + s).drop_first() =~= s);
    assert(trim_leading_newlines(seq!['\n'] + s) == s);
    assert((seq!['\n', '\n'] + s).drop_first() =~= seq!['\n'] + s);
}

/// A text with a managed block in place, where the block is followed by `tail`.
proof fn lemma_reupsert(head: Seq<char>, b: Seq<char>, tail: Seq<char>, block: Seq<char>)
    requires
        b == trim_end(block),
        is_managed_block(block),
        head.len() == 0 || head.last() == '\n',
        find(head, ZSH_MARKER_START@) is None,
        find(head, ZSH_MARKER_END@) is None,
        tail.len() == 0 || tail[0] != '\n',
    ensures
        ({
            let r = if tail.len() == 0 {
                head + b + seq!['\n']
            } else {
                head + b + seq!['\n', '\n'] + tail
            };
            upsert_block(r, block) == r && markers_consistent(r)
        }),
{
    lemma_markers();
    let start_m = ZSH_MARKER_START@;
    let end_m = ZSH_MARKER_END@;
    let rest = if tail.len() == 0 {
        seq!['\n']
    } else {
        seq!['\n', '\n'] + tail
    };
    let r = head + (b + rest);
    let r_said = if tail.len() == 0 {
        head + b + seq!['\n']
    } else {
        head + b + seq!['\n', '\n'] + tail
    };
    assert(r =~= r_said);
    // the start marker opens the block
    assert(starts_with(b + rest, start_m)) by {
        assert((b + rest).take(start_m.len() as int) =~= b.take(start_m.len() as int));
    }
    lemma_find_at_start(b + rest, start_m);
    lemma_find_after_head(head, b + rest, start_m);
    // the end marker closes the block
    lemma_find_in_prefix(b, rest, end_m, b.len() - end_m.len());
    lemma_find_after_head(head, b + rest, end_m);
    let start = head.len() as int;
    let end = head.len() + b.len() - end_m.len();
    assert(find(r, start_m) == Some(start));
    assert(find(r, end_m) == Some(end));
    assert(start <= end);
    assert(r.take(start) =~= head);
    assert(newline_terminated(head) == head);
    assert(r.skip(end + end_m.len()) =~= rest);
    if tail.len() == 0 {
        assert(trim_leading_newlines(rest) =~= Seq::<char>::empty()) by {
            assert(rest.drop_first() =~= Seq::<char>::empty());
            assert(trim_leading_newlines(Seq::<char>::empty()) =~= Seq::<char>::empty());
        }
    } else {
        lemma_trim_leading_newlines_prefix(tail);
    }
    assert(upsert_block(r, block) =~= r);
}

/// Inserting the same managed block a second time changes nothing: for a
/// well-formed block (it starts with the start marker and ends with the end
/// marker, which occurs nowhere else in it) and a text whose markers are
/// consistent (both present, start first, or neither),
/// `upsert(upsert(x, block), block) == upsert(x, block)`, and the result again
/// has consistent markers.
pub proof fn lemma_upsert_idempotent(existing: Seq<char>, block: Seq<char>)
    requires
        is_managed_block(block),
        markers_consistent(existing),
    ensures
        upsert_block(upsert_block(existing, block), block) == upsert_block(existing, block),
        markers_consistent(upsert_block(existing, block)),
{
    lemma_markers();
    let start_m = ZSH_MARKER_START@;
    let end_m = ZSH_MARKER_END@;
    let b = trim_end(block);
    lemma_find(existing, start_m);
    lemma_find(existing, end_m);
    match (find(existing, start_m), find(existing, end_m)) {
        (Some(start), Some(end)) => {
            let prefix = existing.take(start);
            lemma_no_match_before(existing, start_m, start);
            assert forall|j: int| j < start implies !matches_at(existing, end_m, j) by {}
            lemma_no_match_before(existing, end_m, start);
            lemma_find_none_newline(prefix, start_m);
            lemma_find_none_newline(prefix, end_m);
            let head = newline_terminated(prefix);
            let suffix = trim_leading_newlines(existing.skip(end + end_m.len()));
            lemma_trim_leading_newlines(existing.skip(end + end_m.len()));
            lemma_reupsert(head, b, suffix, block);
        },
        (None, None) => {
            if trim(existing).len() == 0 {
                lemma_find_none(Seq::<char>::empty(), start_m);
                lemma_find_none(Seq::<char>::empty(), end_m);
                assert(Seq::<char>::empty() + b + seq!['\n'] =~= b + seq!['\n']);
                lemma_reupsert(Seq::<char>::empty(), b, Seq::<char>::empty(), block);
            } else {
                let t = trim_end(existing);
                lemma_trim_end_is_prefix(existing);
                lemma_find_none_take(existing, start_m, t.len() as int);
                lemma_find_none_take(existing, end_m, t.len() as int);
                lemma_find_none_newline(t, start_m);
                lemma_find_none_newline(t, end_m);
                let head = t + seq!['\n', '\n'];
                assert(head + b + seq!['\n'] =~= t + seq!['\n', '\n'] + b + seq!['\n']);
                lemma_reupsert(head, b, Seq::<char>::empty(), block);
            }
        },
        _ => {},
    }
}


pub open spec fn has_no_hash(s: Seq<char>) -> bool {
    forall|i: int| 0 <= i < s.len() ==> s[i] != '#'
}

/// `s` nowhere holds `#`, a space and `<` in a row, which is how the end
/// marker opens: a name without whitespace, or without `#`, is such a text.
pub open spec fn lacks_end_opening(s: Seq<char>) -> bool {
    forall|i: int| 0 <= i && i + 2 < s.len() ==> !(#[trigger] s[i] == '#' && s[i + 1] == ' ' && s[i + 2] == '<')
}

proof fn lemma_block_pieces()
    ensures
        ZSH_MARKER_START@.len() > 2,
        ZSH_MARKER_START@[0] == '#',
        ZSH_MARKER_START@[2] == '>',
        forall|i: int| 1 <= i < ZSH_MARKER_START@.len() ==> ZSH_MARKER_START@[i] != '#',
        ZSH_MARKER_END@[0] == '#',
        ZSH_MARKER_END@[2] == '<',
        ZSH_MARKER_END@.len() > 2,
        ZSH_MARKER_END@.last() == '<',
        ZSH_FUNCTION_HEAD@.len() == 46,
        ZSH_FUNCTION_HEAD@[17] == '#',
        ZSH_FUNCTION_HEAD@[19] == '-',
        forall|i: int| 0 <= i < ZSH_FUNCTION_HEAD@.len() && i != 17 ==> ZSH_FUNCTION_HEAD@[i] != '#',
        has_no_hash(ZSH_FUNCTION_PASSTHROUGH@),
        has_no_hash(ZSH_FUNCTION_CAPTURE@),
        has_no_hash(ZSH_FUNCTION_TAIL@),
        ZSH_FUNCTION_TAIL@.len() > 2,
        ZSH_MARKER_END@[1] == ' ',
        ZSH_FUNCTION_PASSTHROUGH@.len() > 2,
        ZSH_FUNCTION_PASSTHROUGH@[0] == ' ',
        ZSH_FUNCTION_PASSTHROUGH@[1] == '"',
        ZSH_FUNCTION_CAPTURE@.len() > 2,
        ZSH_FUNCTION_CAPTURE@[0] == ' ',
        ZSH_FUNCTION_CAPTURE@[1] == '"',
        ZSH_FUNCTION_TAIL@[0] == ' ',
        ZSH_FUNCTION_TAIL@[1] == '-',
{
    reveal_strlit("# >>> quickcommand zsh integration >>>");
    reveal_strlit("# <<< quickcommand zsh integration <<<");
    reveal_strlit("\nqc() {\n  if [[ $# -eq 0 ]]; then\n    command ");
    reveal_strlit(" \"$@\"\n    return $?\n  fi\n\n  case \"$1\" in\n    --execute|--emit-command|--help|-h|--version|-v|init|config)\n      command ");
    reveal_strlit(" \"$@\"\n      return $?\n      ;;\n  esac\n\n  local cmd\n  cmd=\"$(command ");
    reveal_strlit(" --emit-command \"$@\")\" || return $?\n  if [[ -n \"$cmd\" ]]; then\n    print -z -- \"$cmd\"\n  fi\n}\n");
}

/// The rendered block without its final newline.
pub open spec fn block_body(binary_name: Seq<char>) -> Seq<char> {
    ZSH_MARKER_START@ + ZSH_FUNCTION_HEAD@ + binary_name + ZSH_FUNCTION_PASSTHROUGH@ + binary_name
        + ZSH_FUNCTION_CAPTURE@ + binary_name + ZSH_FUNCTION_TAIL@
}

/// Within the rendered block, followed by the end marker, the end marker
/// opens nowhere before the end marker itself.
#[verifier::rlimit(80)]
proof fn lemma_no_end_opening(bn: Seq<char>, j: int)
    requires
        lacks_end_opening(bn),
        0 <= j < block_body(bn).len(),
    ensures
        ({
            let b = block_body(bn) + ZSH_MARKER_END@;
            !(b[j] == '#' && b[j + 1] == ' ' && b[j + 2] == '<')
        }),
{
    lemma_block_pieces();
    let s = ZSH_MARKER_START@;
    let h = ZSH_FUNCTION_HEAD@;
    let p = ZSH_FUNCTION_PASSTHROUGH@;
    let c = ZSH_FUNCTION_CAPTURE@;
    let t = ZSH_FUNCTION_TAIL@;
    let e = ZSH_MARKER_END@;
    let a1 = s + h;
    let a2 = a1 + bn;
    let a3 = a2 + p;
    let a4 = a3 + bn;
    let a5 = a4 + c;
    let a6 = a5 + bn;
    let x = a6 + t;
    let b = x + e;
    assert(x == block_body(bn));
    if b[j] == '#' && b[j + 1] == ' ' && b[j + 2] == '<' {
        assert(b[j] == x[j]);
        if j >= a6.len() {
            assert(x[j] == t[j - a6.len()]);
        } else if j >= a5.len() {
            lemma_name_then(bn, t, a5, x, b, j);
        } else if j >= a4.len() {
            assert(x[j] == a6[j] && a6[j] == a5[j] && a5[j] == c[j - a4.len()]);
        } else if j >= a3.len() {
            lemma_name_then(bn, c + bn + t, a3, x, b, j);
        } else if j >= a2.len() {
            assert(x[j] == a6[j] && a6[j] == a5[j] && a5[j] == a4[j] && a4[j] == a3[j]);
            assert(a3[j] == p[j - a2.len()]);
        } else if j >= a1.len() {
            lemma_name_then(bn, p + bn + c + bn + t, a1, x, b, j);
        } else {
            assert(x[j] == a1[j]) by {
                assert(x[j] == a6[j] && a6[j] == a5[j] && a5[j] == a4[j] && a4[j] == a3[j]
                    && a3[j] == a2[j] && a2[j] == a1[j]);
            }
            assert(b[j + 2] == a1[j + 2]) by {
                assert(j + 2 < a1.len());
                assert(x[j + 2] == a6[j + 2] && a6[j + 2] == a5[j + 2] && a5[j + 2] == a4[j + 2]
                    && a4[j + 2] == a3[j + 2] && a3[j + 2] == a2[j + 2] && a2[j + 2] == a1[j + 2]);
            }
            if j >= s.len() {
                assert(a1[j] == h[j - s.len()]);
                assert(a1[j + 2] == h[j + 2 - s.len()]);
            } else {
                assert(a1[j] == s[j]);
                assert(a1[j + 2] == s[j + 2]);
            }
        }
    }
}

/// A `#` in a copy of the name, followed by the text `rest` (which opens
/// with a space and a quote or a dash), opens no end marker.
proof fn lemma_name_then(
    bn: Seq<char>,
    rest: Seq<char>,
    before: Seq<char>,
    x: Seq<char>,
    b: Seq<char>,
    j: int,
)
    requires
        lacks_end_opening(bn),
        rest.len() > 2,
        rest[0] == ' ',
        rest[1] != '<',
        x == before + bn + rest,
        b == x + ZSH_MARKER_END@,
        before.len() <= j < before.len() + bn.len(),
    ensures
        !(b[j] == '#' && b[j + 1] == ' ' && b[j + 2] == '<'),
{
    let k = j - before.len();
    let y = before + bn;
    assert(b[j] == x[j] && x[j] == y[j] && y[j] == bn[k]);
    assert(b[j + 1] == x[j + 1]);
    assert(b[j + 2] == x[j + 2]);
    if k + 2 < bn.len() {
        assert(x[j + 1] == y[j + 1] && y[j + 1] == bn[k + 1]);
        assert(x[j + 2] == y[j + 2] && y[j + 2] == bn[k + 2]);
    } else if k + 1 < bn.len() {
        assert(x[j + 1] == y[j + 1] && y[j + 1] == bn[k + 1]);
        assert(x[j + 2] == rest[0]);
    } else {
        assert(x[j + 1] == rest[0]);
        assert(x[j + 2] == rest[1]);
    }
}

/// The block that `render_zsh_integration` writes is a managed block
/// whenever the binary name does not open the end marker (so for every name
/// without whitespace), so inserting it twice gives what inserting it once
/// gives (`lemma_upsert_idempotent`).
pub proof fn lemma_rendered_block_is_managed(binary_name: Seq<char>)
    requires
        lacks_end_opening(binary_name),
    ensures
        is_managed_block(zsh_integration_text(binary_name)),
{
    lemma_block_pieces();
    let s = ZSH_MARKER_START@;
    let e = ZSH_MARKER_END@;
    let x = block_body(binary_name);
    let b = x + e;
    let text = zsh_integration_text(binary_name);
    assert(text =~= b.push('\n'));
    assert(text.drop_last() =~= b);
    assert(b.last() == '<');
    assert(trim_end(b) == b);
    assert(trim_end(text) == b);
    assert(b.take(s.len() as int) =~= s) by {
        assert(x.take(s.len() as int) =~= s);
    }
    assert(b.skip(b.len() - e.len()) =~= e);
    assert forall|j: int| j < b.len() - e.len() implies !matches_at(b, e, j) by {
        if matches_at(b, e, j) {
            assert(b.subrange(j, j + e.len())[0] == e[0]);
            assert(b.subrange(j, j + e.len())[1] == e[1]);
            assert(b.subrange(j, j + e.len())[2] == e[2]);
            lemma_no_end_opening(binary_name, j);
        }
    }
    assert(b.subrange(b.len() - e.len(), b.len() as int) =~= e);
    lemma_find_is(b, e, b.len() - e.len());
}

/// Installing the integration a second time finds nothing to change: for a
/// binary name that does not open the end marker (every name without
/// whitespace) and an rc file whose markers are consistent, the file that the
/// first installation writes is left as it is by the second.
pub proof fn lemma_install_twice_changes_nothing(existing: Seq<char>, binary_name: Seq<char>)
    requires
        markers_consistent(existing),
        lacks_end_opening(binary_name),
    ensures
        ({
            let block = zsh_integration_text(binary_name);
            let installed = upsert_block(existing, block);
            upsert_block(installed, block) == installed && markers_consistent(installed)
        }),
{
    lemma_rendered_block_is_managed(binary_name);
    lemma_upsert_idempotent(existing, zsh_integration_text(binary_name));
}

/// Whatever the rc file held, the file after inserting a block holds the
/// block, trimmed at its end.
pub proof fn lemma_upsert_holds_block(existing: Seq<char>, block: Seq<char>)
    ensures
        contains(upsert_block(existing, block), trim_end(block)),
{
    let b = trim_end(block);
    let r = upsert_block(existing, block);
    let at: int = match (find(existing, ZSH_MARKER_START@), find(existing, ZSH_MARKER_END@)) {
        (Some(start), Some(end)) => if start <= end {
            newline_terminated(existing.take(start)).len() as int
        } else if trim(existing).len() == 0 {
            0
        } else {
            (trim_end(existing).len() + 2) as int
        },
        _ => if trim(existing).len() == 0 {
            0
        } else {
            (trim_end(existing).len() + 2) as int
        },
    };
    assert(r.subrange(at, at + b.len()) =~= b);
    assert(matches_at(r, b, at));
    lemma_find(r, b);
}

/// The rc file holds no managed block to replace: the start marker is
/// missing, the end marker is missing, or the end marker comes first.
pub open spec fn lacks_managed_region(existing: Seq<char>) -> bool {
    match (find(existing, ZSH_MARKER_START@), find(existing, ZSH_MARKER_END@)) {
        (Some(start), Some(end)) => end < start,
        _ => true,
    }
}

/// Where the rc file holds no managed block, the whole file is kept, with
/// only its trailing whitespace removed, and the block (trimmed at its end)
/// follows after a blank line; a blank file is replaced by the block alone.
/// Every line of the file survives the insertion.
pub proof fn lemma_upsert_appends_keeping_file(existing: Seq<char>, block: Seq<char>)
    requires
        lacks_managed_region(existing),
    ensures
        trim(existing).len() == 0 ==> upsert_block(existing, block) == trim_end(block) + seq!['\n'],
        trim(existing).len() > 0 ==> upsert_block(existing, block) == trim_end(existing) + seq![
            '\n',
            '\n',
        ] + trim_end(block) + seq!['\n'],
        trim(existing).len() > 0 ==> upsert_block(existing, block).take(
            trim_end(existing).len() as int,
        ) == trim_end(existing),
{
    let r = upsert_block(existing, block);
    if trim(existing).len() > 0 {
        let t = trim_end(existing);
        assert(r.take(t.len() as int) =~= t);
    }
}

/// Where the rc file holds a managed block (the start marker at `start`,
/// the end marker at `end`, not before it), everything before the start
/// marker is kept as it was, everything after the end marker is kept (less
/// the newlines that directly follow the marker) at the end of the result,
/// and the block, trimmed at its end, stands in between.
pub proof fn lemma_upsert_replace_keeps_surroundings(
    existing: Seq<char>,
    block: Seq<char>,
    start: int,
    end: int,
)
    requires
        find(existing, ZSH_MARKER_START@) == Some(start),
        find(existing, ZSH_MARKER_END@) == Some(end),
        start <= end,
    ensures
        ({
            let r = upsert_block(existing, block);
            let after = trim_leading_newlines(existing.skip(end + ZSH_MARKER_END@.len()));
            &&& r.len() >= start + after.len()
            &&& r.take(start) == existing.take(start)
            &&& r.skip(r.len() - after.len()) == after
            &&& contains(r, trim_end(block))
        }),
{
    lemma_find(existing, ZSH_MARKER_START@);
    lemma_find(existing, ZSH_MARKER_END@);
    let r = upsert_block(existing, block);
    let head = newline_terminated(existing.take(start));
    let after = trim_leading_newlines(existing.skip(end + ZSH_MARKER_END@.len()));
    let b = trim_end(block);
    assert(head.take(start) =~= existing.take(start));
    assert(r.take(start) =~= existing.take(start));
    if after.len() > 0 {
        assert(r == head + b + seq!['\n', '\n'] + after);
        assert(r.skip(r.len() - after.len()) =~= after);
    } else {
        assert(r.skip(r.len() - after.len()) =~= after);
    }
    lemma_upsert_holds_block(existing, block);
}

} // verus!
