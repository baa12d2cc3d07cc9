use tty7_ui::alias_search::AliasSearch;
use tty7_ui::ssh_connect::{
    build_jump_from_hops, build_native_ssh_spec, config_alias_resolver, jump_hops, map_algorithms, map_auth_mode, map_forward,
    native_spec_from_transient_profile, quick_connect_spec, resolve_jump_chain,
    resolve_persisted_ssh_spec,
    transient_profile_from_target, AliasEntry, AliasResolver, SshAuthMode, SshForwardKind, SshProxy,
};
use tty7_ui::ssh_profile::{
    expand_tilde, parse_quick_connect, to_connect_string, AuthMode, ForwardKind, ForwardRule, HostPort,
    InMemoryCredentialStore, KeyFile, SshProfile,
};

fn profile(name: &str, host: &str, user: &str) -> SshProfile {
    let mut p = SshProfile::new(name);
    p.host = host.to_string();
    p.user = user.to_string();
    p
}

fn no_aliases() -> AliasResolver {
    AliasResolver { entries: vec![] }
}

fn alias(name: &str, profile: SshProfile, proxy_jump: Option<&str>) -> AliasEntry {
    AliasEntry { alias: name.to_string(), profile, proxy_jump: proxy_jump.map(|j| j.to_string()) }
}

#[test]
fn resolves_stored_password_for_auto_and_password_modes() {
    let mut store = InMemoryCredentialStore::new();
    store.set_password("deploy", "10.0.0.5", 22, "hunter2");
    let mut p = profile("web", "10.0.0.5", "deploy");

    p.auth = AuthMode::Auto;
    let spec = build_native_ssh_spec(&p, &[], &store, true);
    assert_eq!(spec.password.as_deref(), Some("hunter2"));

    p.auth = AuthMode::Password;
    let spec = build_native_ssh_spec(&p, &[], &store, true);
    assert_eq!(spec.password.as_deref(), Some("hunter2"));

    p.auth = AuthMode::PublicKey;
    let spec = build_native_ssh_spec(&p, &[], &store, true);
    assert_eq!(spec.password, None);
}

#[test]
fn resolves_jump_chain_into_nested_specs() {
    let bastion = profile("bastion", "bastion.example.com", "jump");
    let mut web = profile("web", "10.0.0.5", "deploy");
    web.jump_host = Some(bastion.id);

    let profiles = vec![bastion.clone(), web.clone()];
    let store = InMemoryCredentialStore::new();
    let spec = build_native_ssh_spec(&web, &profiles, &store, true);

    let jump = spec.jump.expect("jump host should resolve");
    assert_eq!(jump.host, "bastion.example.com");
    assert_eq!(jump.user, "jump");
    assert!(jump.jump.is_none());
}

#[test]
fn jump_cycle_is_broken_not_infinite() {
    let mut a = profile("a", "a.example.com", "u");
    let mut b = profile("b", "b.example.com", "u");
    a.jump_host = Some(b.id);
    b.jump_host = Some(a.id);
    let profiles = vec![a.clone(), b.clone()];
    let store = InMemoryCredentialStore::new();

    let spec = build_native_ssh_spec(&a, &profiles, &store, true);
    let jump = spec.jump.expect("first hop resolves");
    assert_eq!(jump.host, "b.example.com");
    assert!(jump.jump.is_none(), "cycle back to `a` is cut");
}

#[test]
fn global_verify_host_keys_is_the_fallback() {
    let store = InMemoryCredentialStore::new();
    let mut p = profile("web", "h", "u");

    p.verify_host_keys = None;
    assert!(!build_native_ssh_spec(&p, &[], &store, false).verify_host_keys);
    assert!(build_native_ssh_spec(&p, &[], &store, true).verify_host_keys);

    p.verify_host_keys = Some(false);
    assert!(!build_native_ssh_spec(&p, &[], &store, true).verify_host_keys);
}

#[test]
fn transient_profile_maps_and_resolves_alias_jump_chain() {
    let store = InMemoryCredentialStore::new();
    let mut prod = profile("prod", "10.0.0.5", "deploy");
    prod.port = 2222;
    let resolve = AliasResolver {
        entries: vec![alias("bastion", profile("bastion", "bastion.example.com", "jump"), None)],
    };
    let spec = native_spec_from_transient_profile(
        &prod,
        Some("bastion".to_string()),
        &store,
        true,
        &resolve,
    );
    assert_eq!(spec.host, "10.0.0.5");
    assert_eq!(spec.port, 2222);
    let jump = spec.jump.expect("jump resolves from alias");
    assert_eq!(jump.host, "bastion.example.com");
    assert_eq!(jump.user, "jump");
    assert!(jump.jump.is_none());
}

#[test]
fn transient_profile_jump_falls_back_to_user_host_port() {
    let store = InMemoryCredentialStore::new();
    let prod = profile("prod", "10.0.0.5", "deploy");
    let resolve = no_aliases();
    let spec = native_spec_from_transient_profile(
        &prod,
        Some("me@jump.example.com:2200".to_string()),
        &store,
        true,
        &resolve,
    );
    let jump = spec.jump.expect("jump parses as target");
    assert_eq!(jump.host, "jump.example.com");
    assert_eq!(jump.user, "me");
    assert_eq!(jump.port, 2200);
}

#[test]
fn transient_profile_jump_cycle_is_broken() {
    let store = InMemoryCredentialStore::new();
    let prod = profile("prod", "10.0.0.5", "deploy");
    let resolve = AliasResolver {
        entries: vec![alias(
            "bastion",
            profile("bastion", "bastion.example.com", "jump"),
            Some("prod"),
        )],
    };
    let spec = native_spec_from_transient_profile(
        &prod,
        Some("bastion".to_string()),
        &store,
        true,
        &resolve,
    );
    let jump = spec.jump.expect("first hop resolves");
    assert_eq!(jump.host, "bastion.example.com");
    assert!(jump.jump.is_none(), "cycle back to prod is cut");
}

#[test]
fn maps_proxy_precedence_command_over_socks_over_http() {
    let store = InMemoryCredentialStore::new();
    let mut p = profile("web", "h", "u");
    p.socks_proxy = Some(HostPort::new("socks", 1080));
    p.http_proxy = Some(HostPort::new("http", 8080));
    assert!(matches!(build_native_ssh_spec(&p, &[], &store, true).proxy, SshProxy::Socks { .. }));
    p.proxy_command = Some("nc %h %p".to_string());
    assert!(matches!(build_native_ssh_spec(&p, &[], &store, true).proxy, SshProxy::Command(_)));
}

#[test]
fn an_http_proxy_is_used_when_it_is_the_only_one() {
    let store = InMemoryCredentialStore::new();
    let mut p = profile("web", "h", "u");
    assert!(matches!(build_native_ssh_spec(&p, &[], &store, true).proxy, SshProxy::Direct));
    p.http_proxy = Some(HostPort::new("http", 8080));
    match build_native_ssh_spec(&p, &[], &store, true).proxy {
        SshProxy::Http { host, port } => {
            assert_eq!(host, "http");
            assert_eq!(port, 8080);
        },
        other => panic!("expected the HTTP proxy, got {other:?}"),
    }
}

#[test]
fn every_auth_mode_and_forward_kind_has_its_counterpart() {
    assert_eq!(map_auth_mode(AuthMode::Auto), SshAuthMode::Auto);
    assert_eq!(map_auth_mode(AuthMode::Gssapi), SshAuthMode::Gssapi);
    assert_eq!(map_auth_mode(AuthMode::Password), SshAuthMode::Password);
    assert_eq!(map_auth_mode(AuthMode::PublicKey), SshAuthMode::PublicKey);
    assert_eq!(map_auth_mode(AuthMode::Agent), SshAuthMode::Agent);
    assert_eq!(map_auth_mode(AuthMode::KeyboardInteractive), SshAuthMode::KeyboardInteractive);

    let mut rule = ForwardRule {
        kind: ForwardKind::Remote,
        bind: HostPort::new("127.0.0.1", 8080),
        target: HostPort::new("db", 5432),
        description: String::new(),
    };
    let mapped = map_forward(&rule);
    assert_eq!(mapped.kind, SshForwardKind::Remote);
    assert_eq!((mapped.bind_host.as_str(), mapped.bind_port), ("127.0.0.1", 8080));
    assert_eq!((mapped.target_host.as_str(), mapped.target_port), ("db", 5432));
    assert_eq!(mapped.description, None);
    rule.description = "database".to_string();
    assert_eq!(map_forward(&rule).description.as_deref(), Some("database"));
}

#[test]
fn algorithms_are_carried_over_list_by_list() {
    let mut p = profile("web", "h", "u");
    p.algorithms.kex = vec!["k1".to_string(), "k2".to_string()];
    p.algorithms.hostkey = vec!["h1".to_string()];
    let a = map_algorithms(&p.algorithms);
    assert_eq!(a.kex, ["k1", "k2"]);
    assert_eq!(a.host_key, ["h1"]);
    assert!(a.cipher.is_empty() && a.mac.is_empty() && a.compression.is_empty());
}

#[test]
fn a_spec_names_its_profile_and_finds_it_again() {
    let store = InMemoryCredentialStore::new();
    let mut web = profile("web", "10.0.0.5", "deploy");
    let spec = build_native_ssh_spec(&web, &[], &store, true);
    let id = spec.profile_id.clone().expect("a saved profile has an id");
    assert_eq!(id.len(), 36);
    assert_eq!(id.chars().filter(|c| *c == '-').count(), 4);

    web.host = "10.0.0.6".to_string();
    let again = resolve_persisted_ssh_spec(Box::new(spec), &[web], &store, true);
    assert_eq!(again.host, "10.0.0.6", "the profile as it is now");

    let gone = build_native_ssh_spec(&profile("old", "10.0.0.9", "u"), &[], &store, true);
    let kept = resolve_persisted_ssh_spec(Box::new(gone), &[], &store, true);
    assert_eq!(kept.host, "10.0.0.9", "no such profile any more");
}

#[test]
fn a_persisted_spec_whose_id_is_no_id_is_kept() {
    let store = InMemoryCredentialStore::new();
    let web = profile("web", "10.0.0.5", "deploy");
    let mut spec = build_native_ssh_spec(&web, &[], &store, true);
    spec.profile_id = Some("not an id".to_string());
    spec.host = "kept".to_string();
    let again = resolve_persisted_ssh_spec(Box::new(spec), &[web], &store, true);
    assert_eq!(again.host, "kept");
}

#[test]
fn two_new_profiles_are_told_apart() {
    let a = SshProfile::new("a");
    let b = SshProfile::new("a");
    assert_ne!(a.id, b.id);
    assert_eq!(a.port, 22);
}

#[test]
fn stored_passphrases_travel_with_the_keys_they_open() {
    let mut store = InMemoryCredentialStore::new();
    store.home = "/home/u".to_string();
    store.key_files.push(KeyFile {
        path: "/home/u/.ssh/id_ed25519".to_string(),
        account: "sha".to_string(),
    });
    store.set_key_passphrase("sha", "pp");
    let mut p = profile("web", "h", "u");
    p.auth = AuthMode::PublicKey;
    p.identity_files = vec!["~/.ssh/id_ed25519".to_string()];
    let spec = build_native_ssh_spec(&p, &[], &store, true);
    let keys = spec.key_passphrases.expect("one key has a stored passphrase");
    assert_eq!(keys.len(), 1);
    assert_eq!(keys[0].path, "/home/u/.ssh/id_ed25519");
    assert_eq!(keys[0].passphrase, "pp");
}

#[test]
fn jump_lists_are_cut_at_commas() {
    assert_eq!(jump_hops("a, b,,c"), ["a", "b", "c"]);
    assert!(jump_hops("  ").is_empty());
}

#[test]
fn a_jump_list_is_walked_from_its_last_hop() {
    let store = InMemoryCredentialStore::new();
    let prod = profile("prod", "10.0.0.5", "deploy");
    let spec = native_spec_from_transient_profile(
        &prod,
        Some("u@first,v@second".to_string()),
        &store,
        true,
        &no_aliases(),
    );
    let near = spec.jump.expect("the last hop is the nearest");
    assert_eq!(near.host, "second");
    let far = near.jump.expect("the first hop is behind it");
    assert_eq!(far.host, "first");
    assert!(far.jump.is_none());
}

#[test]
fn an_alias_is_looked_up_in_the_table() {
    let table = AliasResolver { entries: vec![alias("box", profile("box", "1.2.3.4", "me"), None)] };
    assert_eq!(config_alias_resolver(&table, "box").map(|e| e.profile.host.as_str()), Some("1.2.3.4"));
    assert!(config_alias_resolver(&table, "other").is_none());
}

#[test]
fn a_target_becomes_a_profile() {
    let p = transient_profile_from_target("me@jump.example.com:2200").expect("a target");
    assert_eq!((p.user.as_str(), p.host.as_str(), p.port), ("me", "jump.example.com", 2200));
    assert!(transient_profile_from_target("").is_none());
}

#[test]
fn quick_connect_prefers_an_alias_of_that_name() {
    let store = InMemoryCredentialStore::new();
    let table = AliasResolver { entries: vec![alias("box", profile("box", "1.2.3.4", "me"), None)] };
    let qc = parse_quick_connect("box").expect("a host");
    let spec = quick_connect_spec(qc, &[], &store, true, &table);
    assert_eq!(spec.host, "1.2.3.4");
    let qc = parse_quick_connect("you@other:2022").expect("a host");
    let spec = quick_connect_spec(qc, &[], &store, true, &table);
    assert_eq!((spec.user.as_str(), spec.host.as_str(), spec.port), ("you", "other", 2022));
}

#[test]
fn connect_strings_leave_out_what_is_usual() {
    let mut p = profile("web", "h", "u");
    assert_eq!(to_connect_string(&p), "u@h");
    p.port = 2222;
    assert_eq!(to_connect_string(&p), "u@h:2222");
    p.user = String::new();
    assert_eq!(to_connect_string(&p), "h:2222");
}

#[test]
fn a_tilde_stands_for_the_home_folder() {
    assert_eq!(expand_tilde("~/.ssh/id", "/home/u"), "/home/u/.ssh/id");
    assert_eq!(expand_tilde("/etc/key", "/home/u"), "/etc/key");
}

#[test]
fn a_target_is_read_back_from_its_connect_string() {
    for (user, port) in [("", 22), ("me", 22), ("me", 2222), ("", 65535)] {
        let mut p = profile("web", "example.com", user);
        p.port = port;
        let qc = parse_quick_connect(&to_connect_string(&p)).expect("a target");
        assert_eq!(qc.user.as_deref().unwrap_or(""), user);
        assert_eq!(qc.host, "example.com");
        assert_eq!(qc.port_or_default(), port);
    }
    assert!(parse_quick_connect("me@").is_none());
    assert!(parse_quick_connect("@host").is_none());
    assert!(parse_quick_connect("host:70000").is_none());
}

fn sorted(names: &[String]) -> Vec<&str> {
    let mut out: Vec<&str> = names.iter().map(|n| n.as_str()).collect();
    out.sort();
    out
}

#[test]
fn a_chain_marks_the_hops_it_entered() {
    let store = InMemoryCredentialStore::new();
    let table = no_aliases();
    let mut visited = vec![];
    let hops = vec!["a".to_string(), "b".to_string()];
    assert!(build_jump_from_hops(&hops, &store, true, &table, &mut visited).is_some());
    assert_eq!(sorted(&visited), ["a", "b"]);

    let mut visited = vec!["z".to_string()];
    assert!(resolve_jump_chain(" a , ,b,", &store, true, &table, &mut visited).is_some());
    assert_eq!(sorted(&visited), ["a", "b", "z"]);

    let mut visited = vec!["b".to_string()];
    assert!(build_jump_from_hops(&hops, &store, true, &table, &mut visited).is_none());
    assert_eq!(sorted(&visited), ["b"], "the last hop was entered before");
    assert!(resolve_jump_chain(" , ", &store, true, &table, &mut visited).is_none());
    assert_eq!(sorted(&visited), ["b"]);
}

#[test]
fn an_identifier_is_written_in_groups() {
    let mut p = profile("web", "10.0.0.5", "deploy");
    p.id = 0x67e55044_10b1_426f_9247_bb680e5fe0c8;
    let spec = build_native_ssh_spec(&p, &[], &InMemoryCredentialStore::new(), true);
    assert_eq!(spec.profile_id.as_deref(), Some("67e55044-10b1-426f-9247-bb680e5fe0c8"));
    p.id = 0xa;
    let spec = build_native_ssh_spec(&p, &[], &InMemoryCredentialStore::new(), true);
    assert_eq!(spec.profile_id.as_deref(), Some("00000000-0000-0000-0000-00000000000a"));
}

#[test]
fn a_search_asks_for_every_hop_once() {
    let config = |alias: &str| match alias {
        "web" => Some((profile("web", "10.0.0.5", "me"), Some("edge, hub".to_string()))),
        "hub" => Some((profile("hub", "10.0.0.1", "me"), Some("edge".to_string()))),
        _ => None,
    };
    let mut search = AliasSearch::new("web");
    let mut asked = vec![];
    while let Some(alias) = search.next_alias() {
        let found = config(&alias);
        asked.push(alias.clone());
        search.answer(alias, found);
    }
    assert_eq!(asked[0], "web");
    assert_eq!(sorted(&asked), ["edge", "hub", "web"]);
    assert_eq!(sorted(&search.asked), ["edge", "hub", "web"]);
    assert_eq!(
        search.table.entries.iter().map(|e| e.alias.as_str()).collect::<Vec<_>>(),
        ["web", "hub"]
    );
    let target = parse_quick_connect("root@web").expect("a host");
    let spec =
        quick_connect_spec(target, &[], &InMemoryCredentialStore::new(), true, &search.table);
    assert_eq!((spec.host.as_str(), spec.user.as_str()), ("10.0.0.5", "root"));
    let hub = spec.jump.expect("through the hub");
    assert_eq!(hub.host, "10.0.0.1");
    assert_eq!(hub.jump.expect("through the edge").host, "edge");
}
