use tty7_ui::ssh_prompt::{
    build_inputs, changed_confirmed, host_key_changed_decision, host_key_unknown_decision, ki_submit,
    passphrase_submit, password_submit, render_ssh_sheet, AuthPromptKind, AuthResponse, KeychainWrite,
    KiPrompt, PaneAuth, PromptModel, QueuedPrompt, SheetAction, SheetPart, SshPhase, SshPromptState,
};
use tty7_ui::ssh_profile::{InMemoryCredentialStore, KeyFile};

#[test]
fn password_prompt_carries_port_from_endpoint_and_marks_rejection() {
    let m = PromptModel::from_prompt(
        AuthPromptKind::Password { user: "deploy".into(), host: "10.0.0.5".into() },
        Some(("10.0.0.5".into(), 2222)),
        true,
    )
    .unwrap();
    assert_eq!(
        m,
        PromptModel::Password {
            user: "deploy".into(),
            host: "10.0.0.5".into(),
            port: 2222,
            rejected: true,
        }
    );
}

#[test]
fn banner_is_not_a_blocking_model() {
    assert!(
        PromptModel::from_prompt(AuthPromptKind::Banner { text: "hi".into() }, None, false).is_none()
    );
}

#[test]
fn fr_a6_remember_overwrites() {
    let (resp, write) = password_submit("u", "h", 22, "new".into(), true, true);
    assert!(matches!(resp, AuthResponse::Secret(_)));
    assert_eq!(
        write,
        KeychainWrite::SetPassword {
            user: "u".into(),
            host: "h".into(),
            port: 22,
            secret: "new".into(),
        }
    );
}

#[test]
fn fr_a6_rejected_without_remember_deletes_stale_entry() {
    let (_resp, write) = password_submit("u", "h", 22, "new".into(), false, true);
    assert_eq!(
        write,
        KeychainWrite::DeletePassword { user: "u".into(), host: "h".into(), port: 22 }
    );
}

#[test]
fn non_rejection_without_remember_never_touches_keychain() {
    let (_resp, write) = password_submit("u", "h", 22, "pw".into(), false, false);
    assert_eq!(write, KeychainWrite::Keep);
}

#[test]
fn passphrase_remember_stores_by_key_path() {
    let (_resp, write) = passphrase_submit("/home/u/.ssh/id_ed25519", "pp".into(), true);
    assert_eq!(
        write,
        KeychainWrite::SetKeyPassphrase {
            key_path: "/home/u/.ssh/id_ed25519".into(),
            secret: "pp".into(),
        }
    );
    let (_r, w) = passphrase_submit("/k", "pp".into(), false);
    assert_eq!(w, KeychainWrite::Keep);
}

#[test]
fn ki_submit_bundles_all_answers() {
    assert_eq!(
        ki_submit(vec!["a".into(), "b".into()]),
        AuthResponse::Secrets(vec!["a".into(), "b".into()])
    );
}

#[test]
fn unknown_host_trust_accepts_and_remembers_abort_rejects() {
    assert_eq!(
        host_key_unknown_decision(true),
        AuthResponse::HostKeyDecision { accept: true, remember: true }
    );
    assert_eq!(
        host_key_unknown_decision(false),
        AuthResponse::HostKeyDecision { accept: false, remember: false }
    );
}

#[test]
fn changed_host_never_auto_accepts() {
    // Only an explicit "yes" trusts; everything else aborts.
    assert!(changed_confirmed("yes"));
    assert!(changed_confirmed("  YES "));
    assert!(!changed_confirmed(""));
    assert!(!changed_confirmed("y"));
    assert!(!changed_confirmed("no"));
    assert_eq!(
        host_key_changed_decision(""),
        AuthResponse::HostKeyDecision { accept: false, remember: false }
    );
    assert_eq!(
        host_key_changed_decision("yes"),
        AuthResponse::HostKeyDecision { accept: true, remember: true }
    );
}

fn password(request_id: u64) -> QueuedPrompt {
    QueuedPrompt {
        request_id,
        kind: AuthPromptKind::Password { user: "u".into(), host: "h".into() },
    }
}

fn banner(request_id: u64, text: &str) -> QueuedPrompt {
    QueuedPrompt { request_id, kind: AuthPromptKind::Banner { text: text.into() } }
}

fn pane(pane_id: u64, queue: Vec<QueuedPrompt>) -> PaneAuth {
    PaneAuth {
        pane_id,
        queue,
        endpoint: Some(("h".into(), 22)),
        auto_supplied_password: false,
        phase: Some(SshPhase::Authenticating),
    }
}

#[test]
fn banners_are_shown_and_the_first_question_is_asked() {
    let mut state = SshPromptState::new();
    let mut p = pane(7, vec![banner(1, "welcome"), password(2), password(3)]);
    state.on_auth_prompt_ready(&mut p);
    assert_eq!(state.banners, ["welcome"]);
    assert_eq!(state.request_id, 2);
    assert_eq!(state.pane_id, Some(7));
    assert_eq!(state.inputs, [true], "one masked field");
    assert_eq!(p.queue.len(), 1, "the other question waits");

    // Another question is not taken while one is open.
    state.on_auth_prompt_ready(&mut p);
    assert_eq!(state.request_id, 2);
    assert_eq!(p.queue.len(), 1);
}

#[test]
fn answering_a_question_brings_up_the_next() {
    let mut state = SshPromptState::new();
    let mut panes = vec![pane(7, vec![password(2), password(3)])];
    state.on_auth_prompt_ready(&mut panes[0]);
    let reply = state.submit_ssh_prompt(vec!["pw".into()], &mut panes).expect("a question was open");
    assert_eq!(reply.pane_id, Some(7));
    assert_eq!(reply.request_id, 2);
    assert_eq!(reply.response, AuthResponse::Secret("pw".into()));
    assert_eq!(reply.write, KeychainWrite::Keep);
    assert_eq!(state.request_id, 3);
    assert!(panes[0].queue.is_empty());

    let reply = state.cancel_ssh_prompt(&mut panes).expect("a question was open");
    assert_eq!(reply.request_id, 3);
    assert_eq!(reply.response, AuthResponse::Cancelled);
    assert!(state.model.is_none());
    assert!(state.submit_ssh_prompt(vec![], &mut panes).is_none());
    assert!(state.cancel_ssh_prompt(&mut panes).is_none());
}

#[test]
fn a_changed_key_is_refused_unless_yes_was_typed() {
    let changed = |request_id| QueuedPrompt {
        request_id,
        kind: AuthPromptKind::HostKeyChanged {
            host: "h".into(),
            port: 22,
            algorithm: "ed25519".into(),
            fingerprint_sha256: "new".into(),
            old_fingerprint_sha256: "old".into(),
        },
    };
    let mut state = SshPromptState::new();
    let mut panes = vec![pane(1, vec![changed(1), changed(2), changed(3)])];
    state.on_auth_prompt_ready(&mut panes[0]);
    let reply = state.submit_ssh_prompt(vec![], &mut panes).unwrap();
    assert_eq!(reply.response, AuthResponse::HostKeyDecision { accept: false, remember: false });
    let reply = state.submit_ssh_prompt(vec!["yes".into()], &mut panes).unwrap();
    assert_eq!(reply.response, AuthResponse::HostKeyDecision { accept: true, remember: true });
    let reply = state.cancel_ssh_prompt(&mut panes).unwrap();
    assert_eq!(reply.response, AuthResponse::HostKeyDecision { accept: false, remember: false });
}

#[test]
fn an_unknown_key_can_be_trusted() {
    let mut state = SshPromptState::new();
    let mut panes = vec![pane(
        1,
        vec![QueuedPrompt {
            request_id: 5,
            kind: AuthPromptKind::HostKeyUnknown {
                host: "h".into(),
                port: 22,
                algorithm: "ed25519".into(),
                fingerprint_sha256: "f".into(),
            },
        }],
    )];
    state.on_auth_prompt_ready(&mut panes[0]);
    assert!(state.inputs.is_empty());
    let reply = state.trust_ssh_host_key(&mut panes);
    assert_eq!(reply.response, AuthResponse::HostKeyDecision { accept: true, remember: true });
    assert!(state.model.is_none());
}

#[test]
fn fields_are_masked_as_the_server_asked() {
    let model = PromptModel::from_prompt(
        AuthPromptKind::KeyboardInteractive {
            name: "n".into(),
            instructions: "i".into(),
            prompts: vec![
                KiPrompt { text: "Code".into(), echo: true },
                KiPrompt { text: "Secret".into(), echo: false },
            ],
        },
        None,
        false,
    )
    .unwrap();
    assert_eq!(model.input_count(), 2);
    assert_eq!(build_inputs(&model), [false, true]);
}

#[test]
fn errors_are_shown_as_banners_until_dismissed() {
    let mut state = SshPromptState::new();
    state.push_ssh_connect_error("no route".into());
    assert_eq!(state.banners.len(), 1);
    state.dismiss_ssh_banner(3);
    assert_eq!(state.banners.len(), 1);
    state.dismiss_ssh_banner(0);
    assert!(state.banners.is_empty());
}

#[test]
fn remembering_is_off_until_it_is_ticked() {
    let mut state = SshPromptState::new();
    assert!(!state.remember);
    state.toggle_ssh_remember();
    assert!(state.remember);
    state.toggle_ssh_remember();
    assert!(!state.remember);
}

#[test]
fn the_sheet_is_drawn_over_the_pane_that_asked() {
    let mut state = SshPromptState::new();
    assert!(!state.render_ssh_prompt_overlay(Some(7)));
    let mut p = pane(7, vec![password(2)]);
    state.on_auth_prompt_ready(&mut p);
    assert!(state.render_ssh_prompt_overlay(Some(7)));
    assert!(!state.render_ssh_prompt_overlay(Some(8)));
}

#[test]
fn a_changed_key_sheet_warns() {
    let model = PromptModel::HostKeyChanged {
        host: "h".into(),
        port: 22,
        algorithm: "ed25519".into(),
        fingerprint: "new".into(),
        old_fingerprint: "old".into(),
    };
    let sheet = render_ssh_sheet(&model);
    assert!(sheet.danger);
    assert!(!sheet.remember);
    assert_eq!(sheet.primary, SheetAction::Abort);
    assert_eq!(sheet.secondary, SheetAction::Override);
    assert!(sheet.parts.iter().any(|p| matches!(p, SheetPart::Field { index: 0 })));
}

#[test]
fn a_password_sheet_offers_to_remember() {
    let model =
        PromptModel::Password { user: "u".into(), host: "h".into(), port: 22, rejected: false };
    let sheet = render_ssh_sheet(&model);
    assert!(sheet.remember && !sheet.danger);
    assert_eq!(sheet.primary, SheetAction::Connect);
    assert_eq!(sheet.secondary, SheetAction::Cancel);
}

#[test]
fn what_is_remembered_is_found_again() {
    let mut store = InMemoryCredentialStore::new();
    let (_, write) = password_submit("u", "h", 22, "one".into(), true, false);
    store.apply_keychain_write(write);
    assert_eq!(store.password_for("u", "h", 22).as_deref(), Some("one"));
    let (_, write) = password_submit("u", "h", 22, "two".into(), true, true);
    store.apply_keychain_write(write);
    assert_eq!(store.password_for("u", "h", 22).as_deref(), Some("two"));
    assert_eq!(store.password_for("u", "h", 23), None);
    let (_, write) = password_submit("u", "h", 22, "three".into(), false, true);
    store.apply_keychain_write(write);
    assert_eq!(store.password_for("u", "h", 22), None);

    store.key_files.push(KeyFile { path: "/k".into(), account: "acc".into() });
    let (_, write) = passphrase_submit("/k", "pp".into(), true);
    store.apply_keychain_write(write);
    assert_eq!(store.passphrase_for_path("/k").as_deref(), Some("pp"));
    store.apply_keychain_write(KeychainWrite::Keep);
    assert_eq!(store.passphrase_for_path("/k").as_deref(), Some("pp"));
}
