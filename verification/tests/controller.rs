use tunet::detail::{
    day_of_month, epoch_day, flux_level, group_by_logout_day, group_details, mac_eq, total_flux,
    total_group_flux, DetailGroup, FluxLevel, NetDetailOrder, OnlineUser,
};
use tunet::model::{flux_completion, login_completion, Action, Effect, Model, UpdateMsg};
use tunet::settings::{read_cred, read_username, record_ac_id, settings_to_store, StdioSettingsReader};
use tunet::strfmt::FmtDuration;
use tunet::types::{NetCredential, NetDetail, NetError, NetFlux, NetState, NetUser};

fn flux(username: &str, online_time: u64) -> NetFlux {
    NetFlux {
        username: username.to_string(),
        flux: 42,
        online_time,
        balance_cents: 1050,
    }
}

#[test]
fn busy_gate_single_call_two_notifications() {
    let mut m = Model::new();
    assert!(!m.log_busy());
    let mut all: Vec<Effect> = Vec::new();
    all.extend(m.handle(Action::Login));
    assert!(m.log_busy());
    all.extend(m.handle(Action::Login));
    all.extend(m.handle(Action::Login));
    assert!(m.log_busy());
    all.extend(m.handle(Action::Update(UpdateMsg::LogBusy)));
    assert!(!m.log_busy());
    let calls = all.iter().filter(|e| matches!(e, Effect::RunLogin)).count();
    let gate_notes = all
        .iter()
        .filter(|e| matches!(e, Effect::Notify(UpdateMsg::LogBusy)))
        .count();
    assert_eq!(calls, 1);
    assert_eq!(gate_notes, 2);
}

#[test]
fn busy_gate_drops_flux_and_logout_too() {
    let mut m = Model::new();
    let first = m.handle(Action::Flux);
    assert_eq!(
        first,
        vec![Effect::Notify(UpdateMsg::LogBusy), Effect::RunFlux(false)]
    );
    assert_eq!(m.handle(Action::Flux), Vec::<Effect>::new());
    let during = m.handle(Action::Logout);
    assert_eq!(during, vec![Effect::Notify(UpdateMsg::Log)]);
    assert!(m.log_busy());
}

#[test]
fn independent_gates_do_not_interfere() {
    let mut m = Model::new();
    m.handle(Action::Login);
    let online = m.handle(Action::Online);
    assert_eq!(
        online,
        vec![Effect::Notify(UpdateMsg::OnlineBusy), Effect::RunOnline]
    );
    assert!(m.online_busy());
    let details = m.handle(Action::Details);
    assert_eq!(
        details,
        vec![Effect::Notify(UpdateMsg::DetailBusy), Effect::RunDetails]
    );
    assert!(m.detail_busy());
    m.handle(Action::Update(UpdateMsg::OnlineBusy));
    assert!(!m.online_busy());
    assert!(m.detail_busy());
    assert!(m.log_busy());
}

#[test]
fn flux_done_keep_preserves_message_on_failure() {
    let mut m = Model::new();
    m.handle(Action::LoginDone("login succeeded".to_string()));
    assert_eq!(m.log, "login succeeded");
    m.handle(Action::FluxDone(
        flux("", 0),
        Some("network broke".to_string()),
        true,
    ));
    assert_eq!(m.log, "login succeeded");
}

#[test]
fn flux_done_keep_overwrites_on_success() {
    let mut m = Model::new();
    m.handle(Action::LoginDone("login succeeded".to_string()));
    m.handle(Action::FluxDone(flux("user", 9), None, true));
    assert_eq!(m.log, "");
    assert_eq!(m.flux.username, "user");
    assert_eq!(m.flux.online_time, 9);
}

#[test]
fn flux_done_without_keep_always_overwrites() {
    let mut m = Model::new();
    m.handle(Action::LoginDone("old line".to_string()));
    m.handle(Action::FluxDone(flux("", 0), Some("broke".to_string()), false));
    assert_eq!(m.log, "broke");
    m.handle(Action::LoginDone("old line".to_string()));
    m.handle(Action::FluxDone(flux("user", 1), None, false));
    assert_eq!(m.log, "");
}

#[test]
fn tick_advances_an_active_snapshot_only() {
    let mut m = Model::new();
    assert_eq!(m.handle(Action::Tick), Vec::<Effect>::new());
    m.handle(Action::FluxDone(flux("user", 100), None, false));
    let effs = m.handle(Action::Tick);
    assert_eq!(effs, vec![Effect::Notify(UpdateMsg::Flux)]);
    assert_eq!(m.flux.online_time, 101);
}

#[test]
fn timer_starts_once() {
    let mut m = Model::new();
    assert_eq!(m.handle(Action::Timer), vec![Effect::StartTimer]);
    assert_eq!(m.handle(Action::Timer), Vec::<Effect>::new());
}

#[test]
fn credential_replacement_notifies() {
    let mut m = Model::new();
    let effs = m.handle(Action::Credential(NetCredential::new(
        "bob".to_string(),
        "pw".to_string(),
        vec![25],
    )));
    assert_eq!(effs, vec![Effect::Notify(UpdateMsg::Credential)]);
    assert_eq!(m.cred.username, "bob");
    assert_eq!(m.cred.ac_ids, vec![25]);
    let effs = m.handle(Action::UpdateCredential("eve".to_string(), "pw2".to_string()));
    assert_eq!(
        effs,
        vec![Effect::BuildCredential("eve".to_string(), "pw2".to_string())]
    );
    assert_eq!(m.cred.username, "bob");
}

#[test]
fn state_detection_and_override() {
    let mut m = Model::new();
    assert_eq!(m.handle(Action::State(None)), vec![Effect::Detect]);
    assert_eq!(m.state, NetState::Unknown);
    let effs = m.handle(Action::State(Some(NetState::Auth4)));
    assert_eq!(effs, vec![Effect::Notify(UpdateMsg::State)]);
    assert_eq!(m.state, NetState::Auth4);
}

#[test]
fn completion_actions_store_their_payloads() {
    let mut m = Model::new();
    let users = vec![NetUser { address: 7, login_time: 3, flux: 9, mac_address: None }];
    m.handle(Action::OnlineDone(users));
    assert_eq!(m.users.len(), 1);
    assert_eq!(m.users[0].address, 7);
    let details = vec![NetDetail { login_time: 1, logout_time: 2, flux: 3 }];
    m.handle(Action::DetailsDone(details));
    assert_eq!(m.details.len(), 1);
    let effs = m.handle(Action::Connect(9));
    assert_eq!(effs, vec![Effect::RunConnect(9)]);
    let effs = m.handle(Action::Drop(9));
    assert_eq!(effs, vec![Effect::RunDrop(9)]);
}

#[test]
fn del_at_exit_flag() {
    let mut m = Model::new();
    assert!(!m.del_at_exit());
    m.set_del_at_exit(true);
    assert!(m.del_at_exit());
}

#[test]
fn epoch_day_floors() {
    assert_eq!(epoch_day(0), 0);
    assert_eq!(epoch_day(86399), 0);
    assert_eq!(epoch_day(86400), 1);
    assert_eq!(epoch_day(-1), -1);
    assert_eq!(epoch_day(-86400), -1);
    assert_eq!(epoch_day(-86401), -2);
}

fn d(logout_time: i64, flux: u64) -> NetDetail {
    NetDetail { login_time: logout_time - 10, logout_time, flux }
}

#[test]
fn grouping_merges_consecutive_days() {
    let details = vec![d(100, 5), d(200, 7), d(86400 + 1, 1)];
    let groups = group_by_logout_day(&details);
    assert_eq!(
        groups,
        vec![
            DetailGroup { logout_date: 0, flux: 12 },
            DetailGroup { logout_date: 1, flux: 1 }
        ]
    );
}

#[test]
fn totals_saturate() {
    assert_eq!(total_flux(&vec![d(1, 2), d(2, 3)]), 5);
    assert_eq!(total_flux(&vec![d(1, u64::MAX), d(2, 5)]), u64::MAX);
    let groups = vec![DetailGroup { logout_date: 0, flux: u64::MAX }, DetailGroup {
        logout_date: 1,
        flux: 1,
    }];
    assert_eq!(total_group_flux(&groups), u64::MAX);
}

#[test]
fn group_ordering_by_flux() {
    let details = vec![d(100, 5), d(86400 + 1, 1), d(2 * 86400 + 1, 9)];
    let asc = group_details(&details, NetDetailOrder::Flux, false);
    let fluxes: Vec<u64> = asc.iter().map(|g| g.flux).collect();
    assert_eq!(fluxes, vec![1, 5, 9]);
    let desc = group_details(&details, NetDetailOrder::Flux, true);
    let fluxes: Vec<u64> = desc.iter().map(|g| g.flux).collect();
    assert_eq!(fluxes, vec![9, 5, 1]);
}

#[test]
fn group_ordering_by_day_of_month_descending() {
    // epoch days 0, 31 and 58: the 1st, the 1st and the 28th.
    let details = vec![d(100, 5), d(31 * 86400 + 1, 1), d(58 * 86400 + 1, 9)];
    let plain = group_details(&details, NetDetailOrder::LogoutTime, false);
    assert_eq!(plain.len(), 3);
    assert_eq!(plain[0].logout_date, 0);
    let desc = group_details(&details, NetDetailOrder::LogoutTime, true);
    let days: Vec<u32> = desc.iter().map(|g| day_of_month(g.logout_date)).collect();
    assert_eq!(days, vec![28, 1, 1]);
}

#[test]
fn day_of_month_matches_the_calendar() {
    assert_eq!(day_of_month(0), 1);
    assert_eq!(day_of_month(30), 31);
    assert_eq!(day_of_month(31), 1);
    assert_eq!(day_of_month(58), 28);
}

#[test]
fn flux_levels() {
    assert_eq!(flux_level(0, true), FluxLevel::Zero);
    assert_eq!(flux_level(1, true), FluxLevel::Moderate);
    assert_eq!(flux_level(19_999_999_999, true), FluxLevel::Moderate);
    assert_eq!(flux_level(20_000_000_000, true), FluxLevel::Heavy);
    assert_eq!(flux_level(1_999_999_999, false), FluxLevel::Moderate);
    assert_eq!(flux_level(2_000_000_000, false), FluxLevel::Heavy);
}

#[test]
fn online_user_marks_local_addresses() {
    let mac = [1u8, 2, 3, 4, 5, 6];
    let user = NetUser { address: 1, login_time: 2, flux: 3, mac_address: Some(mac) };
    let local = OnlineUser::new(&user, &vec![[9, 9, 9, 9, 9, 9], mac]);
    assert!(local.has_mac);
    assert!(local.is_local);
    assert_eq!(local.mac_address, mac);
    let foreign = OnlineUser::new(&user, &vec![[9, 9, 9, 9, 9, 9]]);
    assert!(!foreign.is_local);
    let anon = NetUser { address: 1, login_time: 2, flux: 3, mac_address: None };
    let anon_user = OnlineUser::new(&anon, &vec![mac]);
    assert!(!anon_user.has_mac);
    assert!(!anon_user.is_local);
    assert!(mac_eq(&mac, &mac));
    assert!(!mac_eq(&mac, &[1, 2, 3, 4, 5, 7]));
}

#[test]
fn duration_formatting() {
    assert_eq!(FmtDuration(0).format(), "00:00:00");
    assert_eq!(FmtDuration(3661).format(), "01:01:01");
    assert_eq!(FmtDuration(86400).format(), "1.00:00:00");
    assert_eq!(FmtDuration(2 * 86400 + 3661).format(), "2.01:01:01");
}

#[test]
fn credential_sources() {
    let stored = NetCredential::new("bob".to_string(), "pw".to_string(), vec![25]);
    let c = read_cred(Some(stored), "x".to_string(), "y".to_string());
    assert_eq!(c.username, "bob");
    assert_eq!(c.password, "pw");
    assert_eq!(c.ac_ids, vec![25]);
    let c = read_cred(None, "x".to_string(), "y".to_string());
    assert_eq!(c.username, "x");
    assert_eq!(c.password, "y");
    assert!(c.ac_ids.is_empty());
    let c = read_username(None, "x".to_string());
    assert_eq!(c.password, "");
    let c = StdioSettingsReader.read_with_password("u".to_string(), "p".to_string());
    assert_eq!((c.username.as_str(), c.password.as_str()), ("u", "p"));
}

#[test]
fn stored_settings_omit_password_when_the_keyring_has_it() {
    let cred = NetCredential::new("bob".to_string(), "pw".to_string(), vec![1]);
    let kept = settings_to_store(&cred, true);
    assert_eq!(kept.username, "bob");
    assert_eq!(kept.password, "");
    assert_eq!(kept.ac_ids, vec![1]);
    let plain = settings_to_store(&cred, false);
    assert_eq!(plain.password, "pw");
}

#[test]
fn recording_identifiers_appends_without_duplicates() {
    let mut cred = NetCredential::new("u".to_string(), "p".to_string(), vec![1, 25]);
    record_ac_id(&mut cred, 37);
    assert_eq!(cred.ac_ids, vec![1, 25, 37]);
    record_ac_id(&mut cred, 25);
    assert_eq!(cred.ac_ids, vec![1, 25, 37]);
}

#[test]
fn login_completion_policy() {
    let (done, follow) = login_completion(Ok(("error: ok; error_msg: done".to_string(), 37)));
    assert!(follow);
    assert!(matches!(done, Action::LoginDone(m) if m == "error: ok; error_msg: done"));
    let (done, follow) = login_completion(Err(NetError::Rejected("denied".to_string())));
    assert!(!follow);
    assert!(matches!(done, Action::LoginDone(m) if m == "denied"));
    let (done, _) = login_completion(Err(NetError::NoAcId));
    assert!(matches!(done, Action::LoginDone(m) if m == "no gateway identifier found"));
}

#[test]
fn flux_completion_policy() {
    let ok = flux_completion(Ok(flux("user", 7)), true);
    assert!(matches!(ok, Action::FluxDone(f, None, true) if f.username == "user"));
    let err = flux_completion(Err("broke".to_string()), false);
    match err {
        Action::FluxDone(f, Some(t), keep) => {
            assert_eq!(f.username, "");
            assert_eq!(f.flux, 0);
            assert_eq!(t, "broke");
            assert!(!keep);
        }
        _ => panic!("wrong completion"),
    }
}
