use quickcommand::shell_integration::{
    render_zsh_integration, upsert_managed_block, zsh_integration_update, zshrc_path,
    ZSH_MARKER_END, ZSH_MARKER_START,
};

#[test]
fn snippet_contains_emit_command_and_print_z() {
    let snippet = render_zsh_integration("qc");
    assert!(snippet.contains("command qc --emit-command"));
    assert!(snippet.contains("print -z -- \"$cmd\""));
}

#[test]
fn upsert_is_idempotent() {
    let first = upsert_managed_block("export PATH=$PATH\n", &render_zsh_integration("qc"));
    let second = upsert_managed_block(&first, &render_zsh_integration("qc"));
    assert_eq!(first, second);
}

#[test]
fn upsert_replaces_existing_block() {
    let original = format!(
        "export PATH=$PATH\n\n{}\nold\n{}\n",
        ZSH_MARKER_START, ZSH_MARKER_END
    );
    let updated = upsert_managed_block(&original, &render_zsh_integration("qc"));
    assert!(!updated.contains("\nold\n"));
    assert!(updated.contains("command qc --emit-command"));
}

#[test]
fn rendered_block_is_exact() {
    let expected = "# >>> quickcommand zsh integration >>>
qc() {
  if [[ $# -eq 0 ]]; then
    command qc \"$@\"
    return $?
  fi

  case \"$1\" in
    --execute|--emit-command|--help|-h|--version|-v|init|config)
      command qc \"$@\"
      return $?
      ;;
  esac

  local cmd
  cmd=\"$(command qc --emit-command \"$@\")\" || return $?
  if [[ -n \"$cmd\" ]]; then
    print -z -- \"$cmd\"
  fi
}
# <<< quickcommand zsh integration <<<
";
    assert_eq!(render_zsh_integration("qc"), expected);
}

#[test]
fn upsert_into_empty_file_writes_block_alone() {
    let block = render_zsh_integration("qc");
    assert_eq!(upsert_managed_block("", &block), block);
    assert_eq!(upsert_managed_block("  \n\n", &block), block);
}

#[test]
fn upsert_appends_after_blank_line() {
    let updated = upsert_managed_block("export A=1\n\n\n", "BLOCK\n\n");
    assert_eq!(updated, "export A=1\n\nBLOCK\n");
}

#[test]
fn upsert_keeps_text_around_block() {
    let original = format!("a\n{}\nold\n{}\n\n\nb\n", ZSH_MARKER_START, ZSH_MARKER_END);
    let updated = upsert_managed_block(&original, "NEW\n");
    assert_eq!(updated, "a\nNEW\n\nb\n");
    let glued = format!("a{}x{}tail", ZSH_MARKER_START, ZSH_MARKER_END);
    assert_eq!(upsert_managed_block(&glued, "NEW"), "a\nNEW\n\ntail");
}

#[test]
fn upsert_with_markers_out_of_order_appends() {
    let original = format!("{}\n{}\n", ZSH_MARKER_END, ZSH_MARKER_START);
    let updated = upsert_managed_block(&original, "NEW");
    assert_eq!(updated, format!("{}\n{}\n\nNEW\n", ZSH_MARKER_END, ZSH_MARKER_START));
}

#[test]
fn update_reports_unchanged_file() {
    let installed = upsert_managed_block("export PATH=$PATH\n", &render_zsh_integration("qc"));
    assert_eq!(zsh_integration_update(&installed, "qc"), None);
    assert_eq!(
        zsh_integration_update("export PATH=$PATH\n", "qc"),
        Some(installed)
    );
}

#[test]
fn zshrc_path_joins_home() {
    assert_eq!(zshrc_path("/Users/test"), "/Users/test/.zshrc");
    assert_eq!(zshrc_path("/Users/test/"), "/Users/test/.zshrc");
    assert_eq!(zshrc_path(""), ".zshrc");
}

#[test]
fn install_twice_with_hash_in_name_changes_nothing() {
    let block = render_zsh_integration("q#c");
    let first = upsert_managed_block("alias ll='ls -l'\n", &block);
    assert!(first.contains(block.trim_end()));
    assert_eq!(zsh_integration_update(&first, "q#c"), None);
}
