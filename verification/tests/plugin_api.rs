use isabelle_plugin_api::api::PluginApi;
use isabelle_plugin_api::api::PluginPoolApi;
use isabelle_plugin_api::api::WebResponse;
use isabelle_plugin_api::dispatch::set_then_get;
use isabelle_plugin_api::dispatch::EditOutcome;
use isabelle_plugin_api::host::MemoryHost;
use isabelle_plugin_api::items::ActionKind;
use isabelle_plugin_api::items::FieldValue;
use isabelle_plugin_api::items::Item;
use isabelle_plugin_api::items::ProcessResult;
use isabelle_plugin_api::plugin_pool::is_plugin_file_name;
use isabelle_plugin_api::plugin_pool::select_plugin_files;
use isabelle_plugin_api::plugin_pool::LoadOutcome;
use isabelle_plugin_api::plugin_pool::PluginPool;
use isabelle_plugin_api::scripted::PreEditScript;
use isabelle_plugin_api::scripted::ScriptedPlugin;
use std::collections::HashMap;

fn neutral() -> ScriptedPlugin {
    ScriptedPlugin::neutral()
}

fn allowing() -> ScriptedPlugin {
    let mut p = neutral();
    p.auth_vote = true;
    p
}

fn item_with_int(id: u64, name: &str, value: u64) -> Item {
    let mut it = Item::new(id);
    it.set_field(name, FieldValue::Int(value));
    it
}

#[test]
fn auth_all_allow_is_true() {
    let host = MemoryHost::new();
    let mut pool = PluginPool { plugins: vec![allowing(), allowing(), allowing()] };
    let ok = pool.item_auth(&host, "h", &None, "jobs", 7, &None, false);
    assert!(ok);
}

#[test]
fn auth_one_deny_is_false() {
    let host = MemoryHost::new();
    let mut pool = PluginPool { plugins: vec![allowing(), neutral(), allowing()] };
    let ok = pool.item_auth(&host, "h", &None, "jobs", 7, &None, false);
    assert!(!ok);
}

#[test]
fn auth_empty_pool_denies() {
    let host = MemoryHost::new();
    let mut pool: PluginPool<ScriptedPlugin> = PluginPool::new();
    let ok = pool.item_auth(&host, "h", &None, "jobs", 7, &None, false);
    assert!(!ok);
}

#[test]
fn route_first_match_wins() {
    let host = MemoryHost::new();
    let mut second = neutral();
    second.route_query = "ping".to_string();
    second.route_reply = WebResponse::OkData("pong".to_string());
    let mut third = neutral();
    third.route_query = "ping".to_string();
    third.route_reply = WebResponse::Forbidden;
    let mut pool = PluginPool { plugins: vec![neutral(), second, third] };
    let resp = pool.route_url(&host, "h", &None, "ping");
    assert_eq!(resp, WebResponse::OkData("pong".to_string()));
}

#[test]
fn route_all_decline_not_implemented() {
    let host = MemoryHost::new();
    let mut pool = PluginPool { plugins: vec![neutral(), neutral()] };
    let resp = pool.route_url(&host, "h", &None, "ping");
    assert_eq!(resp, WebResponse::NotImplemented);
}

#[test]
fn route_post_variants_reach_the_claiming_plugin() {
    let host = MemoryHost::new();
    let mut p = neutral();
    p.route_query = "upload".to_string();
    p.route_reply = WebResponse::OkEmpty;
    let mut pool = PluginPool { plugins: vec![p] };
    let payload = Item::new(3);
    let r1 = pool.route_url_post(&host, "h", &None, "upload", &payload);
    assert_eq!(r1, WebResponse::OkEmpty);
    let r2 = pool.route_unprotected_url(&host, "h", &None, "upload");
    assert_eq!(r2, WebResponse::OkEmpty);
    let r3 = pool.route_unprotected_url_post(&host, "h", &None, "other", &payload);
    assert_eq!(r3, WebResponse::NotImplemented);
}

#[test]
fn pre_edit_fold_sequential_visibility() {
    let host = MemoryHost::new();
    let mut setter = neutral();
    setter.pre_edit = PreEditScript::SetField("x".to_string(), FieldValue::Int(1));
    let mut reader = neutral();
    reader.pre_edit = PreEditScript::DenyUnlessField(
        "x".to_string(),
        FieldValue::Int(1),
        "x missing".to_string(),
    );
    let mut pool = PluginPool { plugins: vec![setter, reader] };
    let itm = Item::new(9);
    let r = pool.item_pre_edit(&host, "h", &None, "jobs", &None, &itm, ActionKind::Create, false);
    match r {
        ProcessResult::AllowModified(modified) => {
            assert!(matches!(modified.get_field("x"), Some(FieldValue::Int(1))));
        }
        other => panic!("expected a modified allow, got {:?}", other),
    }
    assert_eq!(pool.plugins[0].pre_edits, 1);
    assert_eq!(pool.plugins[1].pre_edits, 1);
}

#[test]
fn pre_edit_first_deny_short_circuits() {
    let host = MemoryHost::new();
    let mut denier = neutral();
    denier.pre_edit = PreEditScript::Deny("not today".to_string());
    let mut setter = neutral();
    setter.pre_edit = PreEditScript::SetField("x".to_string(), FieldValue::Int(1));
    let mut pool = PluginPool { plugins: vec![denier, setter] };
    let itm = Item::new(9);
    let r = pool.item_pre_edit(&host, "h", &None, "jobs", &None, &itm, ActionKind::Update, false);
    assert_eq!(r, ProcessResult::Deny("not today".to_string()));
    assert_eq!(pool.plugins[0].pre_edits, 1);
    assert_eq!(pool.plugins[1].pre_edits, 0);
}

#[test]
fn set_item_get_item_round_trip() {
    let mut host = MemoryHost::new();
    let mut it = Item::new(42);
    it.set_field("title", FieldValue::Text("hello".to_string()));
    it.set_field("done", FieldValue::Flag(false));
    host.db_set_item("jobs", &it, false);
    let back = host.db_get_item("jobs", 42).expect("the record was just written");
    assert_eq!(back.id, 42);
    assert!(matches!(back.get_field("title"), Some(FieldValue::Text(t)) if t == "hello"));
    assert!(matches!(back.get_field("done"), Some(FieldValue::Flag(false))));
    let again = set_then_get(&mut host, "jobs", &it).expect("round trip always succeeds");
    assert_eq!(again.id, 42);
    assert!(matches!(again.get_field("title"), Some(FieldValue::Text(t)) if t == "hello"));
}

#[test]
fn set_item_merge_keeps_unmentioned_fields() {
    let mut host = MemoryHost::new();
    let mut base = Item::new(1);
    base.set_field("a", FieldValue::Int(1));
    base.set_field("b", FieldValue::Int(2));
    host.db_set_item("jobs", &base, false);
    let mut patch = Item::new(1);
    patch.set_field("b", FieldValue::Int(3));
    patch.set_field("c", FieldValue::Int(4));
    host.db_set_item("jobs", &patch, true);
    let back = host.db_get_item("jobs", 1).expect("the record exists");
    assert!(matches!(back.get_field("a"), Some(FieldValue::Int(1))));
    assert!(matches!(back.get_field("b"), Some(FieldValue::Int(3))));
    assert!(matches!(back.get_field("c"), Some(FieldValue::Int(4))));
}

#[test]
fn set_item_without_merge_replaces_fields() {
    let mut host = MemoryHost::new();
    let mut base = Item::new(1);
    base.set_field("a", FieldValue::Int(1));
    host.db_set_item("jobs", &base, false);
    let mut replacement = Item::new(1);
    replacement.set_field("b", FieldValue::Int(2));
    host.db_set_item("jobs", &replacement, false);
    let back = host.db_get_item("jobs", 1).expect("the record exists");
    assert!(back.get_field("a").is_none());
    assert!(matches!(back.get_field("b"), Some(FieldValue::Int(2))));
}

#[test]
fn delete_item_reports_presence() {
    let mut host = MemoryHost::new();
    host.db_set_item("jobs", &Item::new(5), false);
    assert!(host.db_del_item("jobs", 5));
    assert!(!host.db_del_item("jobs", 5));
    assert!(host.db_get_item("jobs", 5).is_none());
    assert!(!host.db_del_item("nowhere", 5));
}

#[test]
fn get_all_items_lists_the_collection() {
    let mut host = MemoryHost::new();
    for i in 0..4 {
        host.db_set_item("jobs", &Item::new(i), false);
    }
    let listing = host.db_get_all_items("jobs", "", "");
    assert_eq!(listing.total_count, 4);
    assert_eq!(listing.items.len(), 4);
    let empty = host.db_get_all_items("nowhere", "", "");
    assert_eq!(empty.total_count, 0);
    assert!(empty.items.is_empty());
}

#[test]
fn get_items_paginates_a_range() {
    let mut host = MemoryHost::new();
    for i in 1..=10 {
        host.db_set_item("jobs", &Item::new(i), false);
    }
    let page = host.db_get_items("jobs", 2, 9, "", "", 2, 3);
    assert_eq!(page.total_count, 8);
    assert_eq!(page.items.len(), 3);
    let ids: Vec<u64> = page.items.iter().map(|it| it.id).collect();
    assert_eq!(ids, vec![4, 5, 6]);
    let tail = host.db_get_items("jobs", 2, 9, "", "", 7, 3);
    assert_eq!(tail.total_count, 8);
    assert_eq!(tail.items.len(), 1);
}

#[test]
fn plugin_file_names_follow_the_convention() {
    assert!(is_plugin_file_name("libisabelle_plugin_audit.so"));
    assert!(is_plugin_file_name("libisabelle_plugin_"));
    assert!(!is_plugin_file_name("libisabelle_plugin"));
    assert!(!is_plugin_file_name("libisabelle-plugin-audit.so"));
    assert!(!is_plugin_file_name("README.md"));
}

#[test]
fn loader_selects_prefixed_files_in_order() {
    let names = vec![
        "libisabelle_plugin_a.so".to_string(),
        "README.md".to_string(),
        "libisabelle_plugin_b.so".to_string(),
    ];
    let picked = select_plugin_files(&names);
    assert_eq!(
        picked,
        vec![
            "libisabelle_plugin_a.so".to_string(),
            "libisabelle_plugin_b.so".to_string(),
        ]
    );
}

#[test]
fn loader_skips_broken_module_and_keeps_valid_one() {
    let mut pool: PluginPool<ScriptedPlugin> = PluginPool::new();
    let outcomes = vec![
        LoadOutcome::Loaded(vec![allowing()]),
        LoadOutcome::LoadFailed("not a loadable module".to_string()),
        LoadOutcome::MissingEntryPoint("no entry point exported".to_string()),
    ];
    pool.load_plugins(outcomes);
    assert_eq!(pool.plugins.len(), 1);
    assert!(pool.plugins[0].auth_vote);
}

#[test]
fn quota_denies_overflowing_create_and_audit_stays_silent() {
    let mut host = MemoryHost::new();
    for i in 0..100 {
        host.db_set_item("jobs", &Item::new(i), false);
    }
    let audit = neutral();
    let mut quota = neutral();
    quota.pre_edit = PreEditScript::QuotaLimit(100, "quota exceeded".to_string());
    let mut pool = PluginPool { plugins: vec![audit, quota] };
    let attempt = Item::new(100);
    let outcome = pool.process_edit(
        &mut host,
        "h",
        &None,
        "jobs",
        &None,
        &attempt,
        ActionKind::Create,
        false,
    );
    assert_eq!(outcome, EditOutcome::Rejected("quota exceeded".to_string()));
    assert_eq!(pool.plugins[0].post_edits, 0);
    assert_eq!(pool.plugins[1].post_edits, 0);
    assert_eq!(host.db_get_all_items("jobs", "", "").total_count, 100);
    assert!(host.db_get_item("jobs", 100).is_none());
}

#[test]
fn process_edit_persists_and_audits_when_allowed() {
    let mut host = MemoryHost::new();
    let audit = neutral();
    let mut quota = neutral();
    quota.pre_edit = PreEditScript::QuotaLimit(100, "quota exceeded".to_string());
    let mut pool = PluginPool { plugins: vec![audit, quota] };
    let itm = item_with_int(7, "x", 1);
    let outcome = pool.process_edit(
        &mut host,
        "h",
        &None,
        "jobs",
        &None,
        &itm,
        ActionKind::Create,
        false,
    );
    assert_eq!(outcome, EditOutcome::Saved(7));
    assert_eq!(pool.plugins[0].post_edits, 1);
    assert_eq!(pool.plugins[1].post_edits, 1);
    assert!(host.db_get_item("jobs", 7).is_some());
}

#[test]
fn process_edit_delete_removes_the_record() {
    let mut host = MemoryHost::new();
    host.db_set_item("jobs", &Item::new(7), false);
    let mut pool = PluginPool { plugins: vec![neutral()] };
    let outcome = pool.process_edit(
        &mut host,
        "h",
        &None,
        "jobs",
        &None,
        &Item::new(7),
        ActionKind::Delete,
        false,
    );
    assert_eq!(outcome, EditOutcome::Saved(7));
    assert!(host.db_get_item("jobs", 7).is_none());
}

#[test]
fn ping_plugins_reaches_every_plugin() {
    let mut pool = PluginPool { plugins: vec![neutral(), neutral()] };
    pool.ping_plugins();
    pool.ping_plugins();
    assert_eq!(pool.plugins[0].pings, 2);
    assert_eq!(pool.plugins[1].pings, 2);
}

#[test]
fn list_filter_removes_the_scripted_entry() {
    let host = MemoryHost::new();
    let mut censor = neutral();
    censor.remove_id = Some(1);
    let mut pool = PluginPool { plugins: vec![neutral(), censor] };
    let mut map: HashMap<u64, Item> = HashMap::new();
    map.insert(1, Item::new(1));
    map.insert(2, Item::new(2));
    pool.item_list_filter(&host, "h", &None, "jobs", "web", &mut map);
    assert_eq!(map.len(), 1);
    assert!(map.contains_key(&2));
}

#[test]
fn db_filter_concatenates_contributions() {
    let host = MemoryHost::new();
    let mut first = neutral();
    first.db_filter = "a".to_string();
    let mut third = neutral();
    third.db_filter = "b".to_string();
    let mut pool = PluginPool { plugins: vec![first, neutral(), third] };
    let fragment = pool.item_list_db_filter(&host, "h", &None, "jobs", "web", "sql");
    assert_eq!(fragment, "ab".to_string());
}

#[test]
fn collection_read_stops_at_first_stop() {
    let host = MemoryHost::new();
    let mut stopper = neutral();
    stopper.read_continue = false;
    let mut pool = PluginPool { plugins: vec![neutral(), stopper, neutral()] };
    let mut itm = Item::new(1);
    assert!(!pool.collection_read(&host, "h", "jobs", &mut itm));
    let mut open_pool = PluginPool { plugins: vec![neutral(), neutral()] };
    assert!(open_pool.collection_read(&host, "h", "jobs", &mut itm));
}

#[test]
fn otp_and_periodic_reach_every_plugin() {
    let host = MemoryHost::new();
    let mut pool = PluginPool { plugins: vec![neutral(), neutral()] };
    pool.call_otp(&host, "h", &Item::new(1));
    pool.call_periodic_job(&host, "5min");
    assert_eq!(pool.plugins[0].otps, 1);
    assert_eq!(pool.plugins[1].otps, 1);
    assert_eq!(pool.plugins[0].periodics, 1);
    assert_eq!(pool.plugins[1].periodics, 1);
}

#[test]
fn password_hash_verifies_and_rejects() {
    let host = MemoryHost::new();
    let hash = host.auth_get_password_hash("secret", "pepper");
    assert_eq!(hash, "peppersecret".to_string());
    assert!(host.auth_verify_password("secret", &hash));
    assert!(!host.auth_verify_password("wrong-and-long", &hash));
}

#[test]
fn check_role_reads_a_flag_field() {
    let host = MemoryHost::new();
    let mut user = Item::new(1);
    user.set_field("admin", FieldValue::Flag(true));
    assert!(host.auth_check_role(&Some(user), "admin"));
    let mut plain = Item::new(2);
    plain.set_field("admin", FieldValue::Flag(false));
    assert!(!host.auth_check_role(&Some(plain), "admin"));
    assert!(!host.auth_check_role(&None, "admin"));
}

#[test]
fn state_slot_round_trips_per_handle() {
    let mut host = MemoryHost::new();
    assert!(host.fn_get_state("audit").is_none());
    host.fn_set_state("audit", Some(item_with_int(1, "seen", 5)));
    let held = host.fn_get_state("audit").expect("the slot was just written");
    assert!(matches!(held.get_field("seen"), Some(FieldValue::Int(5))));
    assert!(host.fn_get_state("quota").is_none());
    host.fn_set_state("audit", None);
    assert!(host.fn_get_state("audit").is_none());
}

#[test]
fn emails_and_calendar_are_recorded() {
    let mut host = MemoryHost::new();
    assert_eq!(host.email_count(), 0);
    host.fn_send_email("a@example.com", "hi", "body");
    host.fn_send_email("b@example.com", "hi again", "body");
    assert_eq!(host.email_count(), 2);
    assert_eq!(host.calendar_count(), 0);
    host.fn_sync_with_google(true, "standup".to_string(), "2024-05-01T09:00".to_string());
    assert_eq!(host.calendar_count(), 1);
}

#[test]
fn settings_and_public_url_are_stored() {
    let mut host = MemoryHost::new();
    host.set_public_url("https://example.com".to_string());
    assert_eq!(host.globals_get_public_url(), "https://example.com".to_string());
    host.set_settings(item_with_int(1, "retention", 30));
    let settings = host.globals_get_settings();
    assert!(matches!(settings.get_field("retention"), Some(FieldValue::Int(30))));
    host.set_salt("pepper".to_string());
    assert_eq!(host.auth_get_new_salt(), "pepper".to_string());
    host.set_calendar_token("token-1".to_string());
    assert_eq!(host.fn_init_google(), "token-1".to_string());
}

#[test]
fn register_appends_in_order() {
    let mut pool: PluginPool<ScriptedPlugin> = PluginPool::new();
    pool.register(allowing());
    pool.register(neutral());
    assert_eq!(pool.plugins.len(), 2);
    assert!(pool.plugins[0].auth_vote);
    assert!(!pool.plugins[1].auth_vote);
}
