//! The session controller: a state machine over discrete actions.
//!
//! Actions are consumed one at a time; handling one mutates the
//! controller and returns the effects the host must carry out —
//! notifications to the observer and background operations to start.
//! The whole transition relation is the spec function [`model_step`]:
//! every case of [`Model::handle`] is pinned by it. The busy gates
//! guarantee at most one in-flight operation per class; a request
//! against a held gate is dropped, not queued.

use vstd::prelude::*;
use crate::types::{spec_error_text, NetCredential, NetDetail, NetError, NetFlux, NetState, NetUser};

verus! {

/// The change notifications pushed to the external observer.
#[derive(Clone, Copy, PartialEq, Eq, Structural, Debug)]
pub enum UpdateMsg {
    Credential,
    State,
    Log,
    Flux,
    Online,
    Details,
    LogBusy,
    OnlineBusy,
    DetailBusy,
}

/// The discrete requests the controller consumes, including the
/// completion reports of background operations.
pub enum Action {
    Credential(NetCredential),
    UpdateCredential(String, String),
    State(Option<NetState>),
    Timer,
    Tick,
    Login,
    LoginDone(String),
    Logout,
    LogoutDone(String),
    Flux,
    FluxDone(NetFlux, Option<String>, bool),
    Online,
    OnlineDone(Vec<NetUser>),
    Connect(u32),
    Drop(u32),
    Details,
    DetailsDone(Vec<NetDetail>),
    Update(UpdateMsg),
}

/// What the host must do after a transition: notify the observer, or
/// start one background operation whose completion comes back as a new
/// action. A busy flag a background operation holds is released by the
/// host enqueueing `Update` with that flag's message when the operation
/// has finished, on every exit path.
#[derive(Debug, PartialEq)]
pub enum Effect {
    Notify(UpdateMsg),
    BuildCredential(String, String),
    Detect,
    StartTimer,
    RunLogin,
    RunLogout,
    RunFlux(bool),
    RunOnline,
    RunConnect(u32),
    RunDrop(u32),
    RunDetails,
}

/// The mathematical state of a traffic snapshot.
#[verifier::ext_equal]
pub ghost struct FluxView {
    pub username: Seq<char>,
    pub flux: u64,
    pub online_time: u64,
    pub balance_cents: u64,
}

impl View for NetFlux {
    type V = FluxView;

    open spec fn view(&self) -> FluxView {
        FluxView {
            username: self.username@,
            flux: self.flux,
            online_time: self.online_time,
            balance_cents: self.balance_cents,
        }
    }
}

/// The mathematical state of the controller.
#[verifier::ext_equal]
pub ghost struct ModelView {
    pub username: Seq<char>,
    pub password: Seq<char>,
    pub ac_ids: Seq<i32>,
    pub state: NetState,
    pub log: Seq<char>,
    pub flux: FluxView,
    pub users: Seq<NetUser>,
    pub details: Seq<NetDetail>,
    pub log_busy: bool,
    pub online_busy: bool,
    pub detail_busy: bool,
    pub del_at_exit: bool,
    pub timer_started: bool,
}

/// The controller.
pub struct Model {
    pub cred: NetCredential,
    pub state: NetState,
    pub log: String,
    pub flux: NetFlux,
    pub users: Vec<NetUser>,
    pub details: Vec<NetDetail>,
    log_busy: bool,
    online_busy: bool,
    detail_busy: bool,
    del_at_exit: bool,
    timer_started: bool,
}

impl View for Model {
    type V = ModelView;

    closed spec fn view(&self) -> ModelView {
        ModelView {
            username: self.cred.username@,
            password: self.cred.password@,
            ac_ids: self.cred.ac_ids@,
            state: self.state,
            log: self.log@,
            flux: self.flux@,
            users: self.users@,
            details: self.details@,
            log_busy: self.log_busy,
            online_busy: self.online_busy,
            detail_busy: self.detail_busy,
            del_at_exit: self.del_at_exit,
            timer_started: self.timer_started,
        }
    }
}

/// The transition relation of the controller: given the state before,
/// the action, the state after and the effects, whether this is the
/// step the controller takes. Each case is exact.
pub open spec fn model_step(pre: ModelView, a: Action, post: ModelView, effs: Seq<Effect>) -> bool {
    match a {
        Action::Credential(c) => {
            &&& post == ModelView {
                username: c.username@,
                password: c.password@,
                ac_ids: c.ac_ids@,
                ..pre
            }
            &&& effs == seq![Effect::Notify(UpdateMsg::Credential)]
        },
        Action::UpdateCredential(u, p) => {
            &&& post == pre
            &&& effs == seq![Effect::BuildCredential(u, p)]
        },
        Action::State(s) => match s {
            None => {
                &&& post == pre
                &&& effs == seq![Effect::Detect]
            },
            Some(s) => {
                &&& post == ModelView { state: s, ..pre }
                &&& effs == seq![Effect::Notify(UpdateMsg::State)]
            },
        },
        Action::Timer => {
            if pre.timer_started {
                &&& post == pre
                &&& effs == Seq::<Effect>::empty()
            } else {
                &&& post == ModelView { timer_started: true, ..pre }
                &&& effs == seq![Effect::StartTimer]
            }
        },
        Action::Tick => {
            if pre.flux.username.len() > 0 {
                &&& post == ModelView {
                    flux: FluxView {
                        online_time: if pre.flux.online_time < u64::MAX {
                            (pre.flux.online_time + 1) as u64
                        } else {
                            u64::MAX
                        },
                        ..pre.flux
                    },
                    ..pre
                }
                &&& effs == seq![Effect::Notify(UpdateMsg::Flux)]
            } else {
                &&& post == pre
                &&& effs == Seq::<Effect>::empty()
            }
        },
        Action::Login => {
            if pre.log_busy {
                &&& post == ModelView { log: "正在登录"@, ..pre }
                &&& effs == seq![Effect::Notify(UpdateMsg::Log)]
            } else {
                &&& post == ModelView { log: "正在登录"@, log_busy: true, ..pre }
                &&& effs == seq![
                    Effect::Notify(UpdateMsg::Log),
                    Effect::Notify(UpdateMsg::LogBusy),
                    Effect::RunLogin,
                ]
            }
        },
        Action::Logout => {
            if pre.log_busy {
                &&& post == ModelView { log: "正在注销"@, ..pre }
                &&& effs == seq![Effect::Notify(UpdateMsg::Log)]
            } else {
                &&& post == ModelView { log: "正在注销"@, log_busy: true, ..pre }
                &&& effs == seq![
                    Effect::Notify(UpdateMsg::Log),
                    Effect::Notify(UpdateMsg::LogBusy),
                    Effect::RunLogout,
                ]
            }
        },
        Action::LoginDone(s) => {
            &&& post == ModelView { log: s@, ..pre }
            &&& effs == seq![Effect::Notify(UpdateMsg::Log)]
        },
        Action::LogoutDone(s) => {
            &&& post == ModelView { log: s@, ..pre }
            &&& effs == seq![Effect::Notify(UpdateMsg::Log)]
        },
        Action::Flux => {
            if pre.log_busy {
                &&& post == pre
                &&& effs == Seq::<Effect>::empty()
            } else {
                &&& post == ModelView { log_busy: true, ..pre }
                &&& effs == seq![Effect::Notify(UpdateMsg::LogBusy), Effect::RunFlux(false)]
            }
        },
        Action::FluxDone(f, s, keep) => {
            if !keep {
                &&& post == ModelView {
                    log: match s {
                        Some(err) => err@,
                        None => Seq::empty(),
                    },
                    flux: f@,
                    ..pre
                }
                &&& effs == seq![Effect::Notify(UpdateMsg::Log), Effect::Notify(UpdateMsg::Flux)]
            } else {
                match s {
                    Some(_) => {
                        &&& post == ModelView { flux: f@, ..pre }
                        &&& effs == seq![Effect::Notify(UpdateMsg::Flux)]
                    },
                    None => {
                        &&& post == ModelView { log: Seq::empty(), flux: f@, ..pre }
                        &&& effs == seq![
                            Effect::Notify(UpdateMsg::Log),
                            Effect::Notify(UpdateMsg::Flux),
                        ]
                    },
                }
            }
        },
        Action::Online => {
            if pre.online_busy {
                &&& post == pre
                &&& effs == Seq::<Effect>::empty()
            } else {
                &&& post == ModelView { online_busy: true, ..pre }
                &&& effs == seq![Effect::Notify(UpdateMsg::OnlineBusy), Effect::RunOnline]
            }
        },
        Action::OnlineDone(us) => {
            &&& post == ModelView { users: us@, ..pre }
            &&& effs == seq![Effect::Notify(UpdateMsg::Online)]
        },
        Action::Connect(addr) => {
            &&& post == pre
            &&& effs == seq![Effect::RunConnect(addr)]
        },
        Action::Drop(addr) => {
            &&& post == pre
            &&& effs == seq![Effect::RunDrop(addr)]
        },
        Action::Details => {
            if pre.detail_busy {
                &&& post == pre
                &&& effs == Seq::<Effect>::empty()
            } else {
                &&& post == ModelView { detail_busy: true, ..pre }
                &&& effs == seq![Effect::Notify(UpdateMsg::DetailBusy), Effect::RunDetails]
            }
        },
        Action::DetailsDone(ds) => {
            &&& post == ModelView { details: ds@, ..pre }
            &&& effs == seq![Effect::Notify(UpdateMsg::Details)]
        },
        Action::Update(m) => match m {
            UpdateMsg::LogBusy => {
                &&& post == ModelView { log_busy: false, ..pre }
                &&& effs == seq![Effect::Notify(UpdateMsg::LogBusy)]
            },
            UpdateMsg::OnlineBusy => {
                &&& post == ModelView { online_busy: false, ..pre }
                &&& effs == seq![Effect::Notify(UpdateMsg::OnlineBusy)]
            },
            UpdateMsg::DetailBusy => {
                &&& post == ModelView { detail_busy: false, ..pre }
                &&& effs == seq![Effect::Notify(UpdateMsg::DetailBusy)]
            },
            _ => {
                &&& post == pre
                &&& effs == seq![Effect::Notify(m)]
            },
        },
    }
}

impl Model {
    /// A fresh controller: empty credential, unknown state, empty
    /// snapshot and lists, all gates free, no timer yet.
    pub fn new() -> (r: Self)
        ensures
            r@.username == Seq::<char>::empty(),
            r@.password == Seq::<char>::empty(),
            r@.ac_ids == Seq::<i32>::empty(),
            r@.state == NetState::Unknown,
            r@.log == Seq::<char>::empty(),
            r@.flux.username == Seq::<char>::empty(),
            r@.flux.flux == 0u64,
            r@.flux.online_time == 0u64,
            r@.flux.balance_cents == 0u64,
            r@.users == Seq::<NetUser>::empty(),
            r@.details == Seq::<NetDetail>::empty(),
            !r@.log_busy,
            !r@.online_busy,
            !r@.detail_busy,
            !r@.del_at_exit,
            !r@.timer_started,
    {
        Model {
            cred: NetCredential::empty(),
            state: NetState::Unknown,
            log: String::new(),
            flux: NetFlux::empty(),
            users: Vec::new(),
            details: Vec::new(),
            log_busy: false,
            online_busy: false,
            detail_busy: false,
            del_at_exit: false,
            timer_started: false,
        }
    }

    /// Whether a login, logout or traffic refresh is in flight.
    pub fn log_busy(&self) -> (r: bool)
        ensures
            r == self@.log_busy,
    {
        self.log_busy
    }

    /// Whether an online-listing operation is in flight.
    pub fn online_busy(&self) -> (r: bool)
        ensures
            r == self@.online_busy,
    {
        self.online_busy
    }

    /// Whether a detail-listing operation is in flight.
    pub fn detail_busy(&self) -> (r: bool)
        ensures
            r == self@.detail_busy,
    {
        self.detail_busy
    }

    /// Set the delete-credential-on-exit flag.
    pub fn set_del_at_exit(&mut self, v: bool)
        ensures
            final(self)@ == (ModelView { del_at_exit: v, ..old(self)@ }),
    {
        self.del_at_exit = v;
        proof {
            assert(final(self)@ =~= (ModelView { del_at_exit: v, ..old(self)@ }));
        }
    }

    /// Read the delete-credential-on-exit flag.
    pub fn del_at_exit(&self) -> (r: bool)
        ensures
            r == self@.del_at_exit,
    {
        self.del_at_exit
    }

    /// Consume one action: mutate the controller and return the effects
    /// the host must carry out, exactly as [`model_step`] says.
    pub fn handle(&mut self, action: Action) -> (effs: Vec<Effect>)
        ensures
            model_step(old(self)@, action, final(self)@, effs@),
    {
        let ghost pre = self@;
        let ghost a = action;
        let mut effs: Vec<Effect> = Vec::new();
        match action {
            Action::Credential(c) => {
                self.cred = c;
                effs.push(Effect::Notify(UpdateMsg::Credential));
                proof {
                    assert(final(self)@ =~= (ModelView {
                        username: a->Credential_0.username@,
                        password: a->Credential_0.password@,
                        ac_ids: a->Credential_0.ac_ids@,
                        ..pre
                    }));
                    assert(effs@ =~= seq![Effect::Notify(UpdateMsg::Credential)]);
                }
            },
            Action::UpdateCredential(u, p) => {
                effs.push(Effect::BuildCredential(u, p));
                proof {
                    assert(final(self)@ =~= pre);
                    assert(effs@ =~= seq![
                        Effect::BuildCredential(a->UpdateCredential_0, a->UpdateCredential_1),
                    ]);
                }
            },
            Action::State(s) => {
                match s {
                    None => {
                        effs.push(Effect::Detect);
                        proof {
                            assert(final(self)@ =~= pre);
                            assert(effs@ =~= seq![Effect::Detect]);
                        }
                    },
                    Some(s) => {
                        self.state = s;
                        effs.push(Effect::Notify(UpdateMsg::State));
                        proof {
                            assert(final(self)@ =~= (ModelView { state: s, ..pre }));
                            assert(effs@ =~= seq![Effect::Notify(UpdateMsg::State)]);
                        }
                    },
                }
            },
            Action::Timer => {
                if !self.timer_started {
                    self.timer_started = true;
                    effs.push(Effect::StartTimer);
                    proof {
                        assert(final(self)@ =~= (ModelView { timer_started: true, ..pre }));
                        assert(effs@ =~= seq![Effect::StartTimer]);
                    }
                } else {
                    proof {
                        assert(final(self)@ =~= pre);
                        assert(effs@ =~= Seq::<Effect>::empty());
                    }
                }
            },
            Action::Tick => {
                if !self.flux.username.as_str().is_empty() {
                    if self.flux.online_time < u64::MAX {
                        self.flux.online_time = self.flux.online_time + 1;
                    }
                    effs.push(Effect::Notify(UpdateMsg::Flux));
                    proof {
                        assert(final(self)@.flux =~= (FluxView {
                            online_time: if pre.flux.online_time < u64::MAX {
                                (pre.flux.online_time + 1) as u64
                            } else {
                                u64::MAX
                            },
                            ..pre.flux
                        }));
                        assert(final(self)@ =~= (ModelView {
                            flux: final(self)@.flux,
                            ..pre
                        }));
                        assert(effs@ =~= seq![Effect::Notify(UpdateMsg::Flux)]);
                    }
                } else {
                    proof {
                        assert(final(self)@ =~= pre);
                        assert(effs@ =~= Seq::<Effect>::empty());
                    }
                }
            },
            Action::Login => {
                self.log = String::from_str("正在登录");
                effs.push(Effect::Notify(UpdateMsg::Log));
                if !self.log_busy {
                    self.log_busy = true;
                    effs.push(Effect::Notify(UpdateMsg::LogBusy));
                    effs.push(Effect::RunLogin);
                    proof {
                        assert(final(self)@ =~= (ModelView {
                            log: "正在登录"@,
                            log_busy: true,
                            ..pre
                        }));
                        assert(effs@ =~= seq![
                            Effect::Notify(UpdateMsg::Log),
                            Effect::Notify(UpdateMsg::LogBusy),
                            Effect::RunLogin,
                        ]);
                    }
                } else {
                    proof {
                        assert(final(self)@ =~= (ModelView { log: "正在登录"@, ..pre }));
                        assert(effs@ =~= seq![Effect::Notify(UpdateMsg::Log)]);
                    }
                }
            },
            Action::Logout => {
                self.log = String::from_str("正在注销");
                effs.push(Effect::Notify(UpdateMsg::Log));
                if !self.log_busy {
                    self.log_busy = true;
                    effs.push(Effect::Notify(UpdateMsg::LogBusy));
                    effs.push(Effect::RunLogout);
                    proof {
                        assert(final(self)@ =~= (ModelView {
                            log: "正在注销"@,
                            log_busy: true,
                            ..pre
                        }));
                        assert(effs@ =~= seq![
                            Effect::Notify(UpdateMsg::Log),
                            Effect::Notify(UpdateMsg::LogBusy),
                            Effect::RunLogout,
                        ]);
                    }
                } else {
                    proof {
                        assert(final(self)@ =~= (ModelView { log: "正在注销"@, ..pre }));
                        assert(effs@ =~= seq![Effect::Notify(UpdateMsg::Log)]);
                    }
                }
            },
            Action::LoginDone(s) => {
                self.log = s;
                effs.push(Effect::Notify(UpdateMsg::Log));
                proof {
                    assert(final(self)@ =~= (ModelView { log: a->LoginDone_0@, ..pre }));
                    assert(effs@ =~= seq![Effect::Notify(UpdateMsg::Log)]);
                }
            },
            Action::LogoutDone(s) => {
                self.log = s;
                effs.push(Effect::Notify(UpdateMsg::Log));
                proof {
                    assert(final(self)@ =~= (ModelView { log: a->LogoutDone_0@, ..pre }));
                    assert(effs@ =~= seq![Effect::Notify(UpdateMsg::Log)]);
                }
            },
            Action::Flux => {
                if !self.log_busy {
                    self.log_busy = true;
                    effs.push(Effect::Notify(UpdateMsg::LogBusy));
                    effs.push(Effect::RunFlux(false));
                    proof {
                        assert(final(self)@ =~= (ModelView { log_busy: true, ..pre }));
                        assert(effs@ =~= seq![
                            Effect::Notify(UpdateMsg::LogBusy),
                            Effect::RunFlux(false),
                        ]);
                    }
                } else {
                    proof {
                        assert(final(self)@ =~= pre);
                        assert(effs@ =~= Seq::<Effect>::empty());
                    }
                }
            },
            Action::FluxDone(f, s, keep) => {
                if !keep {
                    self.log = match s {
                        Some(err) => err,
                        None => String::new(),
                    };
                    self.flux = f;
                    effs.push(Effect::Notify(UpdateMsg::Log));
                    effs.push(Effect::Notify(UpdateMsg::Flux));
                    proof {
                        assert(final(self)@ =~= (ModelView {
                            log: match a->FluxDone_1 {
                                Some(err) => err@,
                                None => Seq::empty(),
                            },
                            flux: a->FluxDone_0@,
                            ..pre
                        }));
                        assert(effs@ =~= seq![
                            Effect::Notify(UpdateMsg::Log),
                            Effect::Notify(UpdateMsg::Flux),
                        ]);
                    }
                } else {
                    match s {
                        Some(_) => {
                            self.flux = f;
                            effs.push(Effect::Notify(UpdateMsg::Flux));
                            proof {
                                assert(final(self)@ =~= (ModelView {
                                    flux: a->FluxDone_0@,
                                    ..pre
                                }));
                                assert(effs@ =~= seq![Effect::Notify(UpdateMsg::Flux)]);
                            }
                        },
                        None => {
                            self.log = String::new();
                            self.flux = f;
                            effs.push(Effect::Notify(UpdateMsg::Log));
                            effs.push(Effect::Notify(UpdateMsg::Flux));
                            proof {
                                assert(final(self)@ =~= (ModelView {
                                    log: Seq::<char>::empty(),
                                    flux: a->FluxDone_0@,
                                    ..pre
                                }));
                                assert(effs@ =~= seq![
                                    Effect::Notify(UpdateMsg::Log),
                                    Effect::Notify(UpdateMsg::Flux),
                                ]);
                            }
                        },
                    }
                }
            },
            Action::Online => {
                if !self.online_busy {
                    self.online_busy = true;
                    effs.push(Effect::Notify(UpdateMsg::OnlineBusy));
                    effs.push(Effect::RunOnline);
                    proof {
                        assert(final(self)@ =~= (ModelView { online_busy: true, ..pre }));
                        assert(effs@ =~= seq![
                            Effect::Notify(UpdateMsg::OnlineBusy),
                            Effect::RunOnline,
                        ]);
                    }
                } else {
                    proof {
                        assert(final(self)@ =~= pre);
                        assert(effs@ =~= Seq::<Effect>::empty());
                    }
                }
            },
            Action::OnlineDone(us) => {
                self.users = us;
                effs.push(Effect::Notify(UpdateMsg::Online));
                proof {
                    assert(final(self)@ =~= (ModelView { users: a->OnlineDone_0@, ..pre }));
                    assert(effs@ =~= seq![Effect::Notify(UpdateMsg::Online)]);
                }
            },
            Action::Connect(addr) => {
                effs.push(Effect::RunConnect(addr));
                proof {
                    assert(final(self)@ =~= pre);
                    assert(effs@ =~= seq![Effect::RunConnect(a->Connect_0)]);
                }
            },
            Action::Drop(addr) => {
                effs.push(Effect::RunDrop(addr));
                proof {
                    assert(final(self)@ =~= pre);
                    assert(effs@ =~= seq![Effect::RunDrop(a->Drop_0)]);
                }
            },
            Action::Details => {
                if !self.detail_busy {
                    self.detail_busy = true;
                    effs.push(Effect::Notify(UpdateMsg::DetailBusy));
                    effs.push(Effect::RunDetails);
                    proof {
                        assert(final(self)@ =~= (ModelView { detail_busy: true, ..pre }));
                        assert(effs@ =~= seq![
                            Effect::Notify(UpdateMsg::DetailBusy),
                            Effect::RunDetails,
                        ]);
                    }
                } else {
                    proof {
                        assert(final(self)@ =~= pre);
                        assert(effs@ =~= Seq::<Effect>::empty());
                    }
                }
            },
            Action::DetailsDone(ds) => {
                self.details = ds;
                effs.push(Effect::Notify(UpdateMsg::Details));
                proof {
                    assert(final(self)@ =~= (ModelView { details: a->DetailsDone_0@, ..pre }));
                    assert(effs@ =~= seq![Effect::Notify(UpdateMsg::Details)]);
                }
            },
            Action::Update(m) => {
                match m {
                    UpdateMsg::LogBusy => {
                        self.log_busy = false;
                        proof {
                            assert(final(self)@ =~= (ModelView { log_busy: false, ..pre }));
                        }
                    },
                    UpdateMsg::OnlineBusy => {
                        self.online_busy = false;
                        proof {
                            assert(final(self)@ =~= (ModelView { online_busy: false, ..pre }));
                        }
                    },
                    UpdateMsg::DetailBusy => {
                        self.detail_busy = false;
                        proof {
                            assert(final(self)@ =~= (ModelView { detail_busy: false, ..pre }));
                        }
                    },
                    _ => {
                        proof {
                            assert(final(self)@ =~= pre);
                        }
                    },
                }
                effs.push(Effect::Notify(m));
                proof {
                    assert(effs@ =~= seq![Effect::Notify(a->Update_0)]);
                }
            },
        }
        effs
    }
}


/// Build the completion action for a traffic refresh: the snapshot on
/// success; on failure the empty snapshot and the error text, with the
/// caller's preservation request passed through either way.
pub fn flux_completion(res: Result<NetFlux, String>, keep: bool) -> (a: Action)
    ensures
        res matches Ok(f) ==> a == Action::FluxDone(f, None, keep),
        res matches Err(e) ==> (a matches Action::FluxDone(f0, s0, k0) && {
            &&& f0.username@ == Seq::<char>::empty()
            &&& f0.flux == 0u64
            &&& f0.online_time == 0u64
            &&& f0.balance_cents == 0u64
            &&& s0 matches Some(t) && t@ == e@
            &&& k0 == keep
        }),
{
    match res {
        Ok(f) => Action::FluxDone(f, None, keep),
        Err(e) => Action::FluxDone(NetFlux::empty(), Some(e), keep),
    }
}

/// Build the completion of a login or logout: the done message — the
/// gateway's message on success, the error's text on failure — and
/// whether a traffic refresh must follow, which it does exactly on
/// success.
pub fn login_completion(res: Result<(String, i32), NetError>) -> (r: (Action, bool))
    ensures
        res matches Ok(p) ==> r.0 == Action::LoginDone(p.0) && r.1,
        res matches Err(e) ==> (r.0 matches Action::LoginDone(t) && {
            &&& t@ == spec_error_text(&e)
            &&& !r.1
        }),
{
    match res {
        Ok((msg, _)) => (Action::LoginDone(msg), true),
        Err(e) => (Action::LoginDone(e.text()), false),
    }
}

/// Whether an action requests an operation of the login/logout/flux
/// class, the class guarded by the login gate.
pub open spec fn gate_request(a: Action) -> bool {
    a is Login || a is Logout || a is Flux
}

/// How many background operations of the login-gate class some effects
/// start.
pub open spec fn count_gate_ops(effs: Seq<Effect>) -> int
    decreases effs.len(),
{
    if effs.len() == 0 {
        0
    } else {
        count_gate_ops(effs.drop_last()) + (if effs.last() is RunLogin || effs.last() is RunLogout
            || effs.last() is RunFlux {
            1int
        } else {
            0int
        })
    }
}

/// How many login-gate notifications some effects carry.
pub open spec fn count_log_busy_notify(effs: Seq<Effect>) -> int
    decreases effs.len(),
{
    if effs.len() == 0 {
        0
    } else {
        count_log_busy_notify(effs.drop_last()) + (if effs.last() == Effect::Notify(
            UpdateMsg::LogBusy,
        ) {
            1int
        } else {
            0int
        })
    }
}

/// The two counts summed over a sequence of effect lists.
pub open spec fn total_gate_ops(effss: Seq<Seq<Effect>>) -> int
    decreases effss.len(),
{
    if effss.len() == 0 {
        0
    } else {
        total_gate_ops(effss.drop_last()) + count_gate_ops(effss.last())
    }
}

/// See [`total_gate_ops`].
pub open spec fn total_log_busy_notify(effss: Seq<Seq<Effect>>) -> int
    decreases effss.len(),
{
    if effss.len() == 0 {
        0
    } else {
        total_log_busy_notify(effss.drop_last()) + count_log_busy_notify(effss.last())
    }
}

/// The state a run is in before its `i`-th step.
pub open spec fn state_before(m0: ModelView, states: Seq<ModelView>, i: int) -> ModelView {
    if i == 0 {
        m0
    } else {
        states[i - 1]
    }
}

/// A run of the controller: each action steps from the state before it
/// to the recorded state, producing the recorded effects.
pub open spec fn model_run(
    m0: ModelView,
    actions: Seq<Action>,
    states: Seq<ModelView>,
    effss: Seq<Seq<Effect>>,
) -> bool {
    &&& states.len() == actions.len()
    &&& effss.len() == actions.len()
    &&& forall|i: int|
        0 <= i < actions.len() ==> #[trigger] model_step(
            state_before(m0, states, i),
            actions[i],
            states[i],
            effss[i],
        )
}

/// Both totals split at any point of the sequence.
proof fn lemma_total_split(effss: Seq<Seq<Effect>>, k: int)
    requires
        0 <= k <= effss.len(),
    ensures
        total_gate_ops(effss) == total_gate_ops(effss.subrange(0, k)) + total_gate_ops(
            effss.subrange(k, effss.len() as int),
        ),
        total_log_busy_notify(effss) == total_log_busy_notify(effss.subrange(0, k))
            + total_log_busy_notify(effss.subrange(k, effss.len() as int)),
    decreases effss.len(),
{
    let n = effss.len() as int;
    if k == n {
        assert(effss.subrange(0, n) =~= effss);
        assert(effss.subrange(n, n) =~= Seq::<Seq<Effect>>::empty());
    } else {
        lemma_total_split(effss.drop_last(), k);
        assert(effss.drop_last().subrange(0, k) =~= effss.subrange(0, k));
        assert(effss.drop_last().subrange(k, n - 1) =~= effss.subrange(k, n).drop_last());
        assert(effss.subrange(k, n).last() == effss.last());
    }
}

/// The counts of a one-element effect list.
proof fn lemma_counts_singleton(e: Effect)
    ensures
        count_gate_ops(seq![e]) == (if e is RunLogin || e is RunLogout || e is RunFlux {
            1int
        } else {
            0int
        }),
        count_log_busy_notify(seq![e]) == (if e == Effect::Notify(UpdateMsg::LogBusy) {
            1int
        } else {
            0int
        }),
{
    assert(seq![e].drop_last() =~= Seq::<Effect>::empty());
    assert(seq![e].last() == e);
    assert(count_gate_ops(Seq::<Effect>::empty()) == 0);
    assert(count_log_busy_notify(Seq::<Effect>::empty()) == 0);
}

/// One step against a held gate: a further Login, Logout or Flux request
/// starts no background operation of the class and never touches its
/// busy flag or notification; the flag stays held.
pub proof fn lemma_gate_held_drops(pre: ModelView, a: Action, post: ModelView, effs: Seq<Effect>)
    requires
        pre.log_busy,
        gate_request(a),
        model_step(pre, a, post, effs),
    ensures
        post.log_busy,
        count_gate_ops(effs) == 0,
        count_log_busy_notify(effs) == 0,
{
    lemma_counts_singleton(Effect::Notify(UpdateMsg::Log));
    match a {
        Action::Login => {
            assert(effs == seq![Effect::Notify(UpdateMsg::Log)]);
            assert(count_gate_ops(effs) == 0);
            assert(count_log_busy_notify(effs) == 0);
        },
        Action::Logout => {
            assert(effs == seq![Effect::Notify(UpdateMsg::Log)]);
            assert(count_gate_ops(effs) == 0);
            assert(count_log_busy_notify(effs) == 0);
        },
        Action::Flux => {
            assert(effs == Seq::<Effect>::empty());
            assert(count_gate_ops(effs) == 0);
            assert(count_log_busy_notify(effs) == 0);
        },
        _ => {},
    }
}

/// A stretch of gate-class requests after the busy flag was taken: it
/// stays held and the stretch contributes nothing to either count.
proof fn lemma_held_stretch(
    m0: ModelView,
    actions: Seq<Action>,
    states: Seq<ModelView>,
    effss: Seq<Seq<Effect>>,
    upto: int,
)
    requires
        model_run(m0, actions, states, effss),
        1 <= upto <= actions.len(),
        states[0].log_busy,
        forall|i: int| 1 <= i < upto ==> gate_request(#[trigger] actions[i]),
    ensures
        states[upto - 1].log_busy,
        total_gate_ops(effss.subrange(1, upto)) == 0,
        total_log_busy_notify(effss.subrange(1, upto)) == 0,
    decreases upto,
{
    if upto == 1 {
        assert(effss.subrange(1, 1) =~= Seq::<Seq<Effect>>::empty());
    } else {
        lemma_held_stretch(m0, actions, states, effss, upto - 1);
        assert(model_step(
            state_before(m0, states, upto - 1),
            actions[upto - 1],
            states[upto - 1],
            effss[upto - 1],
        ));
        lemma_gate_held_drops(
            states[upto - 2],
            actions[upto - 1],
            states[upto - 1],
            effss[upto - 1],
        );
        assert(effss.subrange(1, upto).drop_last() =~= effss.subrange(1, upto - 1));
        assert(effss.subrange(1, upto).last() == effss[upto - 1]);
    }
}

/// Busy-gate law: starting from a free gate, a Login followed by any
/// number of further Login, Logout or Flux requests issued while the
/// operation is in flight, closed by the host's release, performs
/// exactly one background operation and notifies that busy flag exactly
/// twice (acquire and release); afterwards it is free again.
pub proof fn lemma_busy_gate_cycle(
    m0: ModelView,
    actions: Seq<Action>,
    states: Seq<ModelView>,
    effss: Seq<Seq<Effect>>,
)
    requires
        model_run(m0, actions, states, effss),
        !m0.log_busy,
        actions.len() >= 2,
        actions[0] is Login,
        actions.last() == Action::Update(UpdateMsg::LogBusy),
        forall|i: int| 1 <= i < actions.len() - 1 ==> gate_request(#[trigger] actions[i]),
    ensures
        total_gate_ops(effss) == 1,
        total_log_busy_notify(effss) == 2,
        !states.last().log_busy,
{
    let n = actions.len() as int;
    assert(model_step(state_before(m0, states, 0), actions[0], states[0], effss[0]));
    assert(state_before(m0, states, 0) == m0);
    let e0 = effss[0];
    assert(e0 =~= seq![
        Effect::Notify(UpdateMsg::Log),
        Effect::Notify(UpdateMsg::LogBusy),
        Effect::RunLogin,
    ]);
    assert(e0.drop_last() =~= seq![
        Effect::Notify(UpdateMsg::Log),
        Effect::Notify(UpdateMsg::LogBusy),
    ]);
    assert(e0.drop_last().drop_last() =~= seq![Effect::Notify(UpdateMsg::Log)]);
    assert(e0.drop_last().drop_last().drop_last() =~= Seq::<Effect>::empty());
    reveal_with_fuel(count_gate_ops, 5);
    reveal_with_fuel(count_log_busy_notify, 5);
    assert(count_gate_ops(e0) == 1);
    assert(count_log_busy_notify(e0) == 1);
    assert(states[0].log_busy);
    lemma_held_stretch(m0, actions, states, effss, n - 1);
    assert(states[n - 2].log_busy);
    assert(model_step(state_before(m0, states, n - 1), actions[n - 1], states[n - 1], effss[n
        - 1]));
    let el = effss[n - 1];
    assert(el == seq![Effect::Notify(UpdateMsg::LogBusy)]);
    lemma_counts_singleton(Effect::Notify(UpdateMsg::LogBusy));
    assert(count_gate_ops(el) == 0);
    assert(count_log_busy_notify(el) == 1);
    assert(!states[n - 1].log_busy);
    lemma_total_split(effss, 1);
    assert(effss.subrange(0, 1) =~= seq![e0]);
    assert(seq![e0].drop_last() =~= Seq::<Seq<Effect>>::empty());
    lemma_total_split(effss.subrange(1, n), n - 2);
    assert(effss.subrange(1, n).subrange(0, n - 2) =~= effss.subrange(1, n - 1));
    assert(effss.subrange(1, n).subrange(n - 2, n - 1) =~= seq![el]);
    assert(seq![el].drop_last() =~= Seq::<Seq<Effect>>::empty());
    lemma_held_stretch(m0, actions, states, effss, n - 1);
}

/// Status-preservation law for traffic completions: with preservation
/// requested, a failure never overwrites the status line and a success
/// overwrites it with the (empty) completion message; without it, the
/// completion always overwrites. The snapshot is stored either way.
pub proof fn lemma_flux_done_message(
    pre: ModelView,
    f: NetFlux,
    s: Option<String>,
    keep: bool,
    post: ModelView,
    effs: Seq<Effect>,
)
    requires
        model_step(pre, Action::FluxDone(f, s, keep), post, effs),
    ensures
        keep && s is Some ==> post.log == pre.log,
        keep && s is None ==> post.log == Seq::<char>::empty(),
        !keep ==> post.log == (match s {
            Some(err) => err@,
            None => Seq::<char>::empty(),
        }),
        post.flux == f@,
{
}

} // verus!
