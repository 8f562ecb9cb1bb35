use hyprscratch::autospawn::{autospawn_plan, hidden_spawn_command};
use hyprscratch::config::{dequote, parse_config, split_lines, tokenize_from};
use hyprscratch::daemon::{DaemonState, ServerStep};
use hyprscratch::ipc::{classify_request, decode_titles, encode_titles, Request};
use hyprscratch::reconcile::{active_change_plan, hideall_plan, workspace_change_plan};
use hyprscratch::toggle::{resolve_summon, resolve_toggle, SummonAction, WindowView};
use hyprscratch::HIDDEN_WORKSPACE;

fn b(s: &str) -> Vec<u8> {
    s.as_bytes().to_vec()
}

fn window(initial_title: &str, title: &str, pid: u32, workspace: i32, floating: bool) -> WindowView {
    WindowView {
        initial_title: b(initial_title),
        title: b(title),
        pid,
        workspace,
        floating,
    }
}

#[test]
fn split_lines_basic() {
    let lines = split_lines(&b("a\nbb\n\nc"));
    let got: Vec<Vec<u8>> = lines;
    assert_eq!(got, vec![b("a"), b("bb"), b(""), b("c")]);
}

#[test]
fn tokenize_words_and_quotes() {
    let line = b("hyprscratch \"note pad\" 'kitty -e nvim' stack");
    let toks = tokenize_from(&line, 0);
    assert_eq!(
        toks,
        vec![
            b("hyprscratch"),
            b("\"note pad\""),
            b("'kitty -e nvim'"),
            b("stack")
        ]
    );
}

#[test]
fn tokenize_unclosed_quote_falls_back_to_words() {
    let line = b("hyprscratch t1 'unclosed");
    let toks = tokenize_from(&line, 0);
    assert_eq!(toks, vec![b("hyprscratch"), b("t1"), b("unclosed")]);
}

#[test]
fn marker_with_nothing_after_it_defines_nothing() {
    let reg = parse_config(&b("exec = hyprscratch\nexec = hyprscratch term alacritty\n"));
    assert_eq!(reg.defs.len(), 1);
    assert_eq!(reg.defs[0].title, b("term"));
}

#[test]
fn dequote_strips_matching_quotes_only() {
    assert_eq!(dequote(&b("\"term\"")), b("term"));
    assert_eq!(dequote(&b("'term'")), b("term"));
    assert_eq!(dequote(&b("term")), b("term"));
}

#[test]
fn parse_config_single_definition() {
    let text = b("bind = $mod, T, exec, hyprscratch term alacritty onstart\n");
    let reg = parse_config(&text);
    assert_eq!(reg.defs.len(), 1);
    assert_eq!(reg.defs[0].title, b("term"));
    assert_eq!(reg.defs[0].command, b("alacritty"));
    assert!(reg.defs[0].options.eager_start);
    assert!(!reg.defs[0].options.shiny);
    assert!(!reg.defs[0].options.stackable);
}

#[test]
fn parse_config_quoted_and_flags() {
    let text = b("exec-once = hyprscratch \"note pad\" 'kitty -e nvim' shiny stack\n");
    let reg = parse_config(&text);
    assert_eq!(reg.defs.len(), 1);
    assert_eq!(reg.defs[0].title, b("note pad"));
    assert_eq!(reg.defs[0].command, b("kitty -e nvim"));
    assert!(!reg.defs[0].options.eager_start);
    assert!(reg.defs[0].options.shiny);
    assert!(reg.defs[0].options.stackable);
}

#[test]
fn parse_config_skips_reserved_and_unmarked_lines() {
    let text = b("monitor = DP-1\nbind = $mod, H, exec, hyprscratch hideall\nbind = $mod, C, exec, hyprscratch clean\nbind = $mod, T, exec, hyprscratch term alacritty\n");
    let reg = parse_config(&text);
    assert_eq!(reg.defs.len(), 1);
    assert_eq!(reg.defs[0].title, b("term"));
}

#[test]
fn parse_config_duplicate_title_later_wins() {
    let text = b("exec = hyprscratch term alacritty onstart\nexec = hyprscratch notes obsidian\nexec = hyprscratch term kitty shiny\n");
    let reg = parse_config(&text);
    assert_eq!(reg.defs.len(), 2);
    assert_eq!(reg.defs[0].title, b("term"));
    assert_eq!(reg.defs[0].command, b("kitty"));
    assert!(reg.defs[0].options.shiny);
    assert!(!reg.defs[0].options.eager_start);
    assert_eq!(reg.defs[1].title, b("notes"));
}

#[test]
fn parse_config_line_without_command_defines_nothing() {
    let reg = parse_config(&b("exec = hyprscratch term\n"));
    assert_eq!(reg.defs.len(), 0);
}

#[test]
fn registry_lookup_and_titles() {
    let text = b("exec = hyprscratch term alacritty\nexec = hyprscratch notes obsidian\n");
    let reg = parse_config(&text);
    assert_eq!(reg.lookup(&b("notes")), Some(1));
    assert_eq!(reg.lookup(&b("nope")), None);
    assert_eq!(reg.titles(), vec![b("term"), b("notes")]);
}

#[test]
fn unshiny_titles_excludes_shiny() {
    let text = b("exec = hyprscratch term alacritty shiny\nexec = hyprscratch notes obsidian\n");
    let reg = parse_config(&text);
    assert_eq!(reg.unshiny_titles(), vec![b("notes")]);
}

// The decision table, row by row: identical inputs always pick the same
// row, and requesting the active window's own origin title toggles off.

#[test]
fn toggle_no_active_window_summons() {
    let titles = vec![b("term")];
    let d = resolve_toggle(&None, &titles, &b("term"), false);
    assert!(!d.hide_active);
    assert!(d.summon_target);
}

#[test]
fn toggle_active_is_target_toggles_off() {
    let titles = vec![b("term")];
    let active = Some(window("term", "term", 7, 3, true));
    let d = resolve_toggle(&active, &titles, &b("term"), false);
    assert!(d.hide_active);
    assert!(!d.summon_target);
}

#[test]
fn toggle_other_scratchpad_not_stackable_hides_then_summons() {
    let titles = vec![b("term"), b("notes")];
    let active = Some(window("notes", "notes", 7, 3, true));
    let d = resolve_toggle(&active, &titles, &b("term"), false);
    assert!(d.hide_active);
    assert!(d.summon_target);
}

#[test]
fn toggle_other_scratchpad_stackable_leaves_it_visible() {
    let titles = vec![b("term"), b("notes")];
    let active = Some(window("notes", "notes", 7, 3, true));
    let d = resolve_toggle(&active, &titles, &b("term"), true);
    assert!(!d.hide_active);
    assert!(d.summon_target);
}

#[test]
fn toggle_ordinary_window_summons_only() {
    let titles = vec![b("term")];
    let active = Some(window("browser", "browser", 7, 3, false));
    let d = resolve_toggle(&active, &titles, &b("term"), false);
    assert!(!d.hide_active);
    assert!(d.summon_target);
}

#[test]
fn toggle_same_inputs_same_row() {
    let titles = vec![b("term"), b("notes")];
    let active = Some(window("notes", "notes", 7, 3, true));
    let d1 = resolve_toggle(&active, &titles, &b("term"), false);
    let d2 = resolve_toggle(&active, &titles, &b("term"), false);
    assert_eq!(d1, d2);
}

#[test]
fn summon_spawns_when_title_not_alive() {
    let windows = vec![window("browser", "browser", 1, 2, false)];
    match resolve_summon(&windows, &b("term"), &b("alacritty"), 2) {
        SummonAction::Spawn { command } => assert_eq!(command, b("alacritty")),
        _ => panic!("expected a spawn"),
    }
}

#[test]
fn summon_focuses_window_on_active_workspace() {
    let windows = vec![
        window("browser", "browser", 1, 2, false),
        window("term", "term", 9, 2, true),
    ];
    match resolve_summon(&windows, &b("term"), &b("alacritty"), 2) {
        SummonAction::FocusRaise { pid } => assert_eq!(pid, 9),
        _ => panic!("expected focus and raise"),
    }
}

#[test]
fn summon_relocates_window_from_other_workspace() {
    let windows = vec![window("term", "term", 9, HIDDEN_WORKSPACE, true)];
    match resolve_summon(&windows, &b("term"), &b("alacritty"), 2) {
        SummonAction::RelocateFocusRaise { pid } => assert_eq!(pid, 9),
        _ => panic!("expected relocate, focus and raise"),
    }
}

#[test]
fn workspace_change_relocates_stray_tracked_floaters() {
    let titles = vec![b("term"), b("notes")];
    let windows = vec![
        window("term", "term", 1, 3, true),
        window("term", "term", 2, HIDDEN_WORKSPACE, true),
        window("notes", "notes", 3, 5, false),
        window("browser", "browser", 4, 3, true),
        window("notes", "notes", 5, 1, true),
    ];
    assert_eq!(workspace_change_plan(&windows, &titles), vec![1, 5]);
}

#[test]
fn active_change_plan_spares_shiny_and_floating_focus() {
    let unshiny = vec![b("term")];
    let windows = vec![
        window("term", "term", 1, 3, true),
        window("notes", "notes", 2, 3, true),
    ];
    let tiled = Some(window("browser", "browser", 9, 3, false));
    assert_eq!(active_change_plan(&windows, &unshiny, &tiled), vec![1]);
    let floater = Some(window("browser", "browser", 9, 3, true));
    assert_eq!(active_change_plan(&windows, &unshiny, &floater), Vec::<u32>::new());
    assert_eq!(active_change_plan(&windows, &unshiny, &None), Vec::<u32>::new());
}

#[test]
fn workspace_change_restores_hidden_invariant() {
    let titles = vec![b("term"), b("notes")];
    let mut windows = vec![
        window("term", "term", 1, 3, true),
        window("notes", "notes", 2, HIDDEN_WORKSPACE, true),
        window("browser", "browser", 3, 3, false),
        window("notes", "notes", 4, 5, true),
    ];
    for pid in workspace_change_plan(&windows, &titles) {
        for w in windows.iter_mut() {
            if w.pid == pid {
                w.workspace = HIDDEN_WORKSPACE;
            }
        }
    }
    for w in &windows {
        if w.floating && titles.contains(&w.initial_title) {
            assert_eq!(w.workspace, HIDDEN_WORKSPACE);
        }
    }
}

#[test]
fn hideall_is_title_agnostic() {
    let windows = vec![
        window("term", "term", 1, 3, true),
        window("untracked", "untracked", 2, 3, true),
        window("notes", "notes", 3, 4, true),
        window("browser", "browser", 4, 3, false),
    ];
    assert_eq!(hideall_plan(&windows, 3), vec![1, 2]);
}

#[test]
fn autospawn_spawns_eager_missing_only_once() {
    let text = b("exec = hyprscratch term '[float] alacritty' onstart\nexec = hyprscratch pad kitty onstart\nexec = hyprscratch notes obsidian onstart\nexec = hyprscratch music spotify\n");
    let reg = parse_config(&text);
    let live = vec![b("notes")];
    let plan = autospawn_plan(&reg, &live);
    assert_eq!(
        plan,
        vec![
            b("[workspace 42 silent;float] alacritty"),
            b("[workspace 42 silent] kitty"),
        ]
    );
}

#[test]
fn autospawn_no_eager_definitions_spawns_nothing() {
    let reg = parse_config(&b("exec = hyprscratch term alacritty\n"));
    let plan = autospawn_plan(&reg, &Vec::new());
    assert_eq!(plan, Vec::<Vec<u8>>::new());
}

#[test]
fn hidden_spawn_pins_every_command() {
    assert_eq!(
        hidden_spawn_command(&b("[float] kitty")),
        b("[workspace 42 silent;float] kitty")
    );
    assert_eq!(
        hidden_spawn_command(&b("kitty")),
        b("[workspace 42 silent] kitty")
    );
}

#[test]
fn classify_request_keys_on_first_byte() {
    assert_eq!(classify_request(&vec![0u8]), Request::QueryTitles);
    assert_eq!(classify_request(&b("r")), Request::Reload);
    assert_eq!(classify_request(&b("x")), Request::Unknown);
    assert_eq!(classify_request(&Vec::new()), Request::Unknown);
}

#[test]
fn encode_titles_brackets_and_quotes() {
    assert_eq!(encode_titles(&Vec::new()), b("[]"));
    assert_eq!(
        encode_titles(&vec![b("term"), b("note pad")]),
        b("[\"term\", \"note pad\"]")
    );
}

#[test]
fn decode_inverts_encode() {
    let titles = vec![b("term"), b("note pad"), b("music")];
    assert_eq!(decode_titles(&encode_titles(&titles)), titles);
    assert_eq!(decode_titles(&b("[]")), Vec::<Vec<u8>>::new());
}

#[test]
fn titles_with_quotes_and_backslashes_survive_the_wire() {
    let titles = vec![b("a\"b"), b("c\\d")];
    let wire = encode_titles(&titles);
    assert_eq!(wire, b("[\"a\\qb\", \"c\\\\d\"]"));
    assert_eq!(decode_titles(&wire), titles);
}

#[test]
fn reload_is_idempotent_on_unchanged_source() {
    let text = b("exec = hyprscratch term alacritty onstart shiny\n");
    let mut state = DaemonState::startup(&b(""));
    state.apply_reload(&text, &Vec::new());
    let once: Vec<(Vec<u8>, Vec<u8>, bool, bool, bool)> = state
        .registry
        .defs
        .iter()
        .map(|d| {
            (
                d.title.clone(),
                d.command.clone(),
                d.options.eager_start,
                d.options.shiny,
                d.options.stackable,
            )
        })
        .collect();
    state.apply_reload(&text, &Vec::new());
    let twice: Vec<(Vec<u8>, Vec<u8>, bool, bool, bool)> = state
        .registry
        .defs
        .iter()
        .map(|d| {
            (
                d.title.clone(),
                d.command.clone(),
                d.options.eager_start,
                d.options.shiny,
                d.options.stackable,
            )
        })
        .collect();
    assert_eq!(once, twice);
}

#[test]
fn query_after_reload_reports_new_titles_only() {
    let mut state = DaemonState::startup(&b("exec = hyprscratch old_one kitty\n"));
    assert_eq!(state.query_response(), b("[\"old_one\"]"));
    let spawns = state.apply_reload(
        &b("exec = hyprscratch term alacritty\nexec = hyprscratch notes obsidian\n"),
        &Vec::new(),
    );
    assert_eq!(spawns, Vec::<Vec<u8>>::new());
    assert_eq!(state.query_response(), b("[\"term\", \"notes\"]"));
}

#[test]
fn request_bytes_drive_reload_then_query() {
    let mut state = DaemonState::startup(&b("exec = hyprscratch old_one kitty\n"));
    let cfg = Some(b("exec = hyprscratch term alacritty\n"));
    match state.handle_request(&b("r"), &cfg, &Vec::new()) {
        ServerStep::Reloaded { spawns } => assert_eq!(spawns, Vec::<Vec<u8>>::new()),
        _ => panic!("expected a reload"),
    }
    match state.handle_request(&vec![0u8], &None, &Vec::new()) {
        ServerStep::Respond { response } => assert_eq!(response, b("[\"term\"]")),
        _ => panic!("expected a response"),
    }
}

#[test]
fn unreadable_source_keeps_prior_registry() {
    let mut state = DaemonState::startup(&b("exec = hyprscratch term alacritty\n"));
    match state.handle_request(&b("r"), &None, &Vec::new()) {
        ServerStep::KeptPrior => (),
        _ => panic!("expected the reload to abort"),
    }
    assert_eq!(state.query_response(), b("[\"term\"]"));
}

#[test]
fn unknown_request_is_ignored() {
    let mut state = DaemonState::startup(&b("exec = hyprscratch term alacritty\n"));
    match state.handle_request(&b("q"), &None, &Vec::new()) {
        ServerStep::Ignored => (),
        _ => panic!("expected the request to be ignored"),
    }
    assert_eq!(state.query_response(), b("[\"term\"]"));
}

#[test]
fn toggle_scenario_spawn_then_toggle_off() {
    // A config defines {title: "term", command: "alacritty", options: {}}
    // and no window named "term" exists: toggling "term" spawns it.
    let reg = parse_config(&b("exec = hyprscratch term alacritty\n"));
    let titles = reg.titles();
    let d = resolve_toggle(&None, &titles, &b("term"), false);
    assert!(d.summon_target && !d.hide_active);
    let windows: Vec<WindowView> = Vec::new();
    let cmd = match resolve_summon(&windows, &b("term"), &reg.defs[0].command, 1) {
        SummonAction::Spawn { command } => command,
        _ => panic!("expected a spawn"),
    };
    assert_eq!(cmd, b("alacritty"));
    // On a later invocation the spawned window holds focus: the same
    // request now hides it and neither spawns nor summons.
    let active = Some(window("term", "term", 11, 1, true));
    let d2 = resolve_toggle(&active, &titles, &b("term"), false);
    assert!(d2.hide_active && !d2.summon_target);
}
