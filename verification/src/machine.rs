//! The terminal state machine: the single owner of the screen state. It
//! consumes ticks, debounced scans, scan results and sync reports, and it is
//! the only component that moves the terminal between screens, starts a
//! scan, or writes into the offline buffer. Every ordering-sensitive
//! decision of the terminal is decided — and verified — here.

use vstd::prelude::*;

use crate::api::{spec_error_message, spec_is_transient, ApiClient, ApiError, ClockResponse};
use crate::buffer::{first_pending_index, pending_of, EventBuffer};
use crate::config::AppConfig;
use crate::rfid::{debounce_ok, spec_debounce_ok, view_last};
use crate::screens::{ClockInData, ClockOutData, ErrorData, ErrorType};
use crate::strutil::str_eq;
use crate::timestamp::{format_hms, format_rfc3339, hms_of_rfc3339, spec_hms_of_ms,
    spec_hms_part, valid_rfc3339, RFC3339_MS_LIMIT};

verus! {

/// The screen the terminal is on, with what that screen needs. Only `Idle`
/// is steady: `Loading` ends when the scan's result arrives, and every
/// other state counts seconds down to `Idle`.
pub enum AppState {
    Idle { now_ms: u64 },
    Loading { rfid: String },
    ClockIn { data: ClockInData, seconds_left: u64 },
    ClockOut { data: ClockOutData, seconds_left: u64 },
    OfflineConfirm { data: ClockInData, seconds_left: u64 },
    Error { data: ErrorData, seconds_left: u64 },
}

/// The messages the event loop can deliver.
pub enum Message {
    /// One second has passed.
    Tick,
    /// The sync interval has passed.
    SyncTick,
    /// A debounced tag has arrived from the reader.
    RfidScanned(String),
    /// The server (or the transport) has answered a dispatched scan.
    ScanResult(Result<ClockResponse, ApiError>),
    /// One sync pass has finished; how many events it synced.
    SyncComplete(u32),
}

/// What the event loop must do after an update.
pub enum Effect {
    Nothing,
    /// Dispatch one scan request for this tag.
    StartScan { rfid: String, terminal_id: String },
    /// Run one sync pass over the pending buffer.
    StartSync,
    /// Play the success cue.
    PlaySuccess,
    /// Play the error cue.
    PlayError,
}

/// Whether a tag offered to the state machine is taken: only from `Idle`,
/// and only past the machine's own debounce window.
pub open spec fn spec_scan_accepted(
    s: AppState,
    last: Option<(Seq<char>, u64)>,
    tag: Seq<char>,
    now: u64,
    window: u64,
) -> bool {
    s matches AppState::Idle { .. } && spec_debounce_ok(last, tag, now, window)
}

/// Where a tick moves the screen: the idle clock follows `now`, a transient
/// screen counts down and falls back to `Idle` at zero, and `Loading` waits
/// for its result.
pub open spec fn spec_tick_state(s: AppState, now: u64) -> AppState {
    match s {
        AppState::Idle { .. } => AppState::Idle { now_ms: now },
        AppState::Loading { rfid } => AppState::Loading { rfid },
        AppState::ClockIn { data, seconds_left } => {
            if seconds_left > 0 {
                AppState::ClockIn { data, seconds_left: (seconds_left - 1) as u64 }
            } else {
                AppState::Idle { now_ms: now }
            }
        },
        AppState::ClockOut { data, seconds_left } => {
            if seconds_left > 0 {
                AppState::ClockOut { data, seconds_left: (seconds_left - 1) as u64 }
            } else {
                AppState::Idle { now_ms: now }
            }
        },
        AppState::OfflineConfirm { data, seconds_left } => {
            if seconds_left > 0 {
                AppState::OfflineConfirm { data, seconds_left: (seconds_left - 1) as u64 }
            } else {
                AppState::Idle { now_ms: now }
            }
        },
        AppState::Error { data, seconds_left } => {
            if seconds_left > 0 {
                AppState::Error { data, seconds_left: (seconds_left - 1) as u64 }
            } else {
                AppState::Idle { now_ms: now }
            }
        },
    }
}

/// The screen a successful reply leads to from `Loading`.
pub open spec fn spec_scan_ok_state(resp: ClockResponse, idle_timeout: u64, post: AppState) -> bool {
    if resp.entry_type@ == "CLOCK_IN"@ {
        post matches AppState::ClockIn { data, seconds_left } && seconds_left == idle_timeout
            && data.employee_name@ == resp.employee.first_name@ + " "@
            + resp.employee.last_name@ && data.timestamp@ == spec_hms_part(resp.timestamp@)
            && data.scheduled_minutes == 480
    } else {
        post matches AppState::ClockOut { data, seconds_left } && seconds_left == idle_timeout
            && data.employee_name@ == resp.employee.first_name@ + " "@
            + resp.employee.last_name@ && data.timestamp@ == spec_hms_part(resp.timestamp@)
            && data.work_minutes == resp.today_work_minutes && data.break_minutes
            == resp.today_break_minutes && data.weekly_work_minutes == 0
            && data.weekly_target_minutes == 2400 && data.overtime_minutes
            == resp.overtime_minutes && data.remaining_vacation_tenths
            == resp.remaining_vacation_tenths
    }
}

/// The screen a failed reply leads to from `Loading`: a transient failure
/// shows the offline confirmation (the scan was kept), anything else an
/// error screen with its category and line.
pub open spec fn spec_scan_err_state(
    e: ApiError,
    now: u64,
    idle_timeout: u64,
    error_timeout: u64,
    post: AppState,
) -> bool {
    match e {
        ApiError::NetworkError(_) => post matches AppState::OfflineConfirm { data, seconds_left }
            && seconds_left == idle_timeout && data.employee_name@ == Seq::<char>::empty()
            && data.timestamp@ == spec_hms_of_ms(now as nat) && data.scheduled_minutes == 0,
        ApiError::Timeout => post matches AppState::OfflineConfirm { data, seconds_left }
            && seconds_left == idle_timeout && data.employee_name@ == Seq::<char>::empty()
            && data.timestamp@ == spec_hms_of_ms(now as nat) && data.scheduled_minutes == 0,
        ApiError::NotFound(_) => post matches AppState::Error { data, seconds_left }
            && seconds_left == error_timeout && data.message@ == "Ausweis nicht registriert"@
            && data.error_type matches ErrorType::BadgeNotRecognized,
        ApiError::Conflict => post matches AppState::Error { data, seconds_left } && seconds_left
            == error_timeout && data.message@ == "Bitte erneut scannen"@
            && data.error_type matches ErrorType::Other,
        _ => post matches AppState::Error { data, seconds_left } && seconds_left == error_timeout
            && data.message@ == spec_error_message(e)
            && data.error_type matches ErrorType::ServerUnavailable,
    }
}

/// The terminal's whole mutable state, owned by the event loop.
pub struct Terminal {
    pub state: AppState,
    pub config: AppConfig,
    pub api_client: ApiClient,
    pub buffer: EventBuffer,
    /// Buffered events the server has not seen, as last read.
    pub pending_count: u32,
    /// Whether the last contact with the server succeeded.
    pub is_online: bool,
    /// Sent with every scan so the server can tell terminals apart.
    pub terminal_id: String,
    /// The state-machine-level debouncer: last accepted tag and when.
    pub last_scan: Option<(String, u64)>,
}

impl Terminal {
    pub open spec fn wf(&self) -> bool {
        self.buffer.wf()
    }

    /// A terminal at start: idle, online, debouncer clear, with the given
    /// buffer (fresh, or reloaded from the durable store).
    pub fn new(config: AppConfig, buffer: EventBuffer, now_ms: u64) -> (r: Terminal)
        requires
            buffer.wf(),
        ensures
            r.wf(),
            r.state matches AppState::Idle { now_ms: n } && n == now_ms,
            r.buffer == buffer,
            r.pending_count as int == pending_of(buffer@).len(),
            r.is_online == true,
            r.terminal_id@ == config.api.terminal_id@,
            r.last_scan is None,
            r.config == config,
    {
        let pending_count = buffer.pending_count();
        let api_client = ApiClient::new(&config.api);
        let terminal_id = config.api.terminal_id.clone();
        Terminal {
            state: AppState::Idle { now_ms },
            config,
            api_client,
            buffer,
            pending_count,
            is_online: true,
            terminal_id,
            last_scan: Option::None,
        }
    }

    /// One second has passed: the idle clock follows, a countdown falls by
    /// one, and a countdown that was already zero returns to `Idle`.
    pub fn handle_tick(&mut self, now_ms: u64) -> (eff: Effect)
        ensures
            final(self).state == spec_tick_state(old(self).state, now_ms),
            final(self).config == old(self).config,
            final(self).api_client == old(self).api_client,
            final(self).buffer == old(self).buffer,
            final(self).pending_count == old(self).pending_count,
            final(self).is_online == old(self).is_online,
            final(self).terminal_id == old(self).terminal_id,
            final(self).last_scan == old(self).last_scan,
            eff matches Effect::Nothing,
    {
        let mut return_to_idle = false;
        match &mut self.state {
            AppState::Idle { now_ms: n } => {
                *n = now_ms;
            },
            AppState::Loading { .. } => {},
            AppState::ClockIn { seconds_left, .. } => {
                if *seconds_left > 0 {
                    *seconds_left = *seconds_left - 1;
                } else {
                    return_to_idle = true;
                }
            },
            AppState::ClockOut { seconds_left, .. } => {
                if *seconds_left > 0 {
                    *seconds_left = *seconds_left - 1;
                } else {
                    return_to_idle = true;
                }
            },
            AppState::OfflineConfirm { seconds_left, .. } => {
                if *seconds_left > 0 {
                    *seconds_left = *seconds_left - 1;
                } else {
                    return_to_idle = true;
                }
            },
            AppState::Error { seconds_left, .. } => {
                if *seconds_left > 0 {
                    *seconds_left = *seconds_left - 1;
                } else {
                    return_to_idle = true;
                }
            },
        }
        if return_to_idle {
            self.state = AppState::Idle { now_ms };
        }
        Effect::Nothing
    }

    /// The sync interval has passed: ask for a sync pass only if something
    /// is pending.
    pub fn handle_sync_tick(&mut self) -> (eff: Effect)
        ensures
            *final(self) == *old(self),
            if old(self).pending_count > 0 {
                eff matches Effect::StartSync
            } else {
                eff matches Effect::Nothing
            },
    {
        if self.pending_count == 0 {
            Effect::Nothing
        } else {
            Effect::StartSync
        }
    }

    /// A debounced tag has arrived. It is taken only from `Idle` — while a
    /// scan is in flight or a confirmation is showing, it is dropped — and
    /// only past the state machine's own debounce window; an accepted tag
    /// moves the screen to `Loading` and dispatches one scan request.
    pub fn handle_rfid_scanned(&mut self, tag: String, now_ms: u64) -> (eff: Effect)
        ensures
            final(self).config == old(self).config,
            final(self).api_client == old(self).api_client,
            final(self).buffer == old(self).buffer,
            final(self).pending_count == old(self).pending_count,
            final(self).is_online == old(self).is_online,
            final(self).terminal_id == old(self).terminal_id,
            !spec_scan_accepted(
                old(self).state,
                view_last(&old(self).last_scan),
                tag@,
                now_ms,
                old(self).config.rfid.debounce_ms,
            ) ==> (*final(self) == *old(self) && eff matches Effect::Nothing),
            spec_scan_accepted(
                old(self).state,
                view_last(&old(self).last_scan),
                tag@,
                now_ms,
                old(self).config.rfid.debounce_ms,
            ) ==> ((final(self).state matches AppState::Loading { rfid } && rfid@ == tag@)
                && (final(self).last_scan matches Option::Some(p) && p.0@ == tag@ && p.1
                == now_ms) && (eff matches Effect::StartScan { rfid, terminal_id } && rfid@
                == tag@ && terminal_id@ == old(self).terminal_id@)),
    {
        match &self.state {
            AppState::Idle { .. } => {},
            _ => {
                return Effect::Nothing;
            },
        }
        if !debounce_ok(&self.last_scan, tag.as_str(), now_ms, self.config.rfid.debounce_ms) {
            return Effect::Nothing;
        }
        self.last_scan = Option::Some((tag.clone(), now_ms));
        self.state = AppState::Loading { rfid: tag.clone() };
        let terminal_id = self.terminal_id.clone();
        Effect::StartScan { rfid: tag, terminal_id }
    }

    /// A dispatched scan has its result. Outside `Loading` the result is
    /// late — the screen already moved on — and is discarded. From
    /// `Loading`, exactly one outcome screen follows: the matching
    /// confirmation on success; the offline confirmation on a transient
    /// failure, after the scan is pushed into the buffer; an error screen
    /// with the category's line otherwise. The success cue also plays for a
    /// buffered scan: the user's scan was accepted.
    pub fn handle_scan_result(
        &mut self,
        outcome: Result<ClockResponse, ApiError>,
        now_ms: u64,
    ) -> (eff: Effect)
        requires
            old(self).wf(),
            old(self).buffer.spec_next_id() < i64::MAX,
            now_ms < RFC3339_MS_LIMIT,
            outcome matches Result::Ok(resp) ==> valid_rfc3339(resp.timestamp@),
        ensures
            final(self).wf(),
            final(self).config == old(self).config,
            final(self).api_client == old(self).api_client,
            final(self).terminal_id == old(self).terminal_id,
            final(self).last_scan == old(self).last_scan,
            !(old(self).state matches AppState::Loading { .. }) ==> (*final(self) == *old(self)
                && eff matches Effect::Nothing),
            old(self).state matches AppState::Loading { .. } ==> outcome
                matches Result::Ok(resp) ==> ({
                &&& spec_scan_ok_state(
                    resp,
                    old(self).config.display.idle_timeout_seconds,
                    final(self).state,
                )
                &&& final(self).is_online == true
                &&& final(self).buffer == old(self).buffer
                &&& final(self).pending_count as int == pending_of(old(self).buffer@).len()
                &&& eff matches Effect::PlaySuccess
            }),
            old(self).state matches AppState::Loading { .. } ==> outcome
                matches Result::Err(e) ==> !spec_is_transient(e) ==> ({
                &&& spec_scan_err_state(
                    e,
                    now_ms,
                    old(self).config.display.idle_timeout_seconds,
                    old(self).config.display.error_timeout_seconds,
                    final(self).state,
                )
                &&& final(self).buffer == old(self).buffer
                &&& final(self).pending_count == old(self).pending_count
                &&& final(self).is_online == old(self).is_online
                &&& eff matches Effect::PlayError
            }),
            old(self).state matches AppState::Loading { rfid } ==> outcome
                matches Result::Err(e) ==> spec_is_transient(e) ==> ({
                &&& spec_scan_err_state(
                    e,
                    now_ms,
                    old(self).config.display.idle_timeout_seconds,
                    old(self).config.display.error_timeout_seconds,
                    final(self).state,
                )
                &&& final(self).is_online == false
                &&& eff matches Effect::PlaySuccess
                &&& final(self).pending_count as int == pending_of(final(self).buffer@).len()
                &&& final(self).buffer.spec_next_id() == old(self).buffer.spec_next_id() + 1
                &&& final(self).buffer.spec_max_size() == old(self).buffer.spec_max_size()
                &&& final(self).buffer@.len() >= 1
                &&& ({
                    let ne = final(self).buffer@.last();
                    &&& ne.id == old(self).buffer.spec_next_id()
                    &&& ne.tag == rfid@
                    &&& ne.terminal == old(self).terminal_id@
                    &&& ne.synced == false
                    &&& valid_rfc3339(ne.timestamp)
                    &&& spec_hms_part(ne.timestamp) == spec_hms_of_ms(now_ms as nat)
                })
                &&& ({
                    let pre = old(self).buffer@;
                    if pending_of(pre).len() < old(self).buffer.spec_max_size() {
                        final(self).buffer@.drop_last() == pre
                    } else if pending_of(pre).len() > 0 {
                        final(self).buffer@.drop_last() == pre.remove(first_pending_index(pre))
                    } else {
                        final(self).buffer@.drop_last() == pre
                    }
                })
            }),
    {
        let rfid = match &self.state {
            AppState::Loading { rfid } => rfid.clone(),
            _ => {
                return Effect::Nothing;
            },
        };
        match outcome {
            Result::Ok(resp) => {
                self.is_online = true;
                self.pending_count = self.buffer.pending_count();
                let name = resp.employee.first_name.clone().concat(" ").concat(
                    resp.employee.last_name.as_str(),
                );
                let ts = hms_of_rfc3339(resp.timestamp.as_str());
                let timeout = self.config.display.idle_timeout_seconds;
                if str_eq(resp.entry_type.as_str(), "CLOCK_IN") {
                    self.state = AppState::ClockIn {
                        data: ClockInData {
                            employee_name: name,
                            timestamp: ts,
                            scheduled_minutes: 480,
                        },
                        seconds_left: timeout,
                    };
                } else {
                    self.state = AppState::ClockOut {
                        data: ClockOutData {
                            employee_name: name,
                            timestamp: ts,
                            work_minutes: resp.today_work_minutes,
                            break_minutes: resp.today_break_minutes,
                            weekly_work_minutes: 0,
                            weekly_target_minutes: 2400,
                            overtime_minutes: resp.overtime_minutes,
                            remaining_vacation_tenths: resp.remaining_vacation_tenths,
                        },
                        seconds_left: timeout,
                    };
                }
                Effect::PlaySuccess
            },
            Result::Err(e) => {
                if e.is_transient() {
                    let now_text = format_rfc3339(now_ms);
                    let ghost prebuf = self.buffer@;
                    self.buffer.push(rfid.as_str(), self.terminal_id.as_str(), now_text.as_str());
                    proof {
                        assert(self.buffer@.last() == self.buffer@[self.buffer@.len() - 1]);
                    }
                    self.pending_count = self.buffer.pending_count();
                    self.is_online = false;
                    self.state = AppState::OfflineConfirm {
                        data: ClockInData {
                            employee_name: String::new(),
                            timestamp: format_hms(now_ms),
                            scheduled_minutes: 0,
                        },
                        seconds_left: self.config.display.idle_timeout_seconds,
                    };
                    Effect::PlaySuccess
                } else {
                    match &e {
                        ApiError::NotFound(_) => {
                            self.state = AppState::Error {
                                data: ErrorData {
                                    message: "Ausweis nicht registriert".to_owned(),
                                    error_type: ErrorType::BadgeNotRecognized,
                                },
                                seconds_left: self.config.display.error_timeout_seconds,
                            };
                        },
                        ApiError::Conflict => {
                            self.state = AppState::Error {
                                data: ErrorData {
                                    message: "Bitte erneut scannen".to_owned(),
                                    error_type: ErrorType::Other,
                                },
                                seconds_left: self.config.display.error_timeout_seconds,
                            };
                        },
                        _ => {
                            self.state = AppState::Error {
                                data: ErrorData {
                                    message: e.message(),
                                    error_type: ErrorType::ServerUnavailable,
                                },
                                seconds_left: self.config.display.error_timeout_seconds,
                            };
                        },
                    }
                    Effect::PlayError
                }
            },
        }
    }

    /// A sync pass has finished. Only the counters move: the pending badge
    /// is re-read from the buffer, and a drained buffer marks the terminal
    /// online again — also after a pass that only discarded stale events.
    /// The screen never changes here.
    pub fn handle_sync_complete(&mut self, _count: u32) -> (eff: Effect)
        requires
            old(self).wf(),
        ensures
            final(self).state == old(self).state,
            final(self).config == old(self).config,
            final(self).api_client == old(self).api_client,
            final(self).buffer == old(self).buffer,
            final(self).terminal_id == old(self).terminal_id,
            final(self).last_scan == old(self).last_scan,
            eff matches Effect::Nothing,
            final(self).pending_count as int == pending_of(old(self).buffer@).len(),
            final(self).is_online == (pending_of(old(self).buffer@).len() == 0 || old(
                self,
            ).is_online),
    {
        self.pending_count = self.buffer.pending_count();
        if self.pending_count == 0 {
            self.is_online = true;
        }
        Effect::Nothing
    }

    /// Dispatches one message to its handler.
    pub fn update(&mut self, message: Message, now_ms: u64) -> (eff: Effect)
        requires
            old(self).wf(),
            old(self).buffer.spec_next_id() < i64::MAX,
            now_ms < RFC3339_MS_LIMIT,
            message matches Message::ScanResult(o) && o matches Result::Ok(resp)
                ==> valid_rfc3339(resp.timestamp@),
        ensures
            final(self).wf(),
            match message {
                Message::Tick => final(self).state == spec_tick_state(old(self).state, now_ms)
                    && final(self).buffer == old(self).buffer,
                Message::SyncTick => *final(self) == *old(self) && if old(self).pending_count
                    > 0 {
                    eff matches Effect::StartSync
                } else {
                    eff matches Effect::Nothing
                },
                Message::RfidScanned(_) => final(self).buffer == old(self).buffer && (!(
                old(self).state matches AppState::Idle { .. }) ==> *final(self) == *old(self)),
                Message::ScanResult(_) => final(self).config == old(self).config,
                Message::SyncComplete(_) => final(self).state == old(self).state
                    && final(self).buffer == old(self).buffer,
            },
    {
        match message {
            Message::Tick => self.handle_tick(now_ms),
            Message::SyncTick => self.handle_sync_tick(),
            Message::RfidScanned(tag) => self.handle_rfid_scanned(tag, now_ms),
            Message::ScanResult(outcome) => self.handle_scan_result(outcome, now_ms),
            Message::SyncComplete(count) => self.handle_sync_complete(count),
        }
    }
}

/// The screen after `n` ticks.
pub open spec fn iterate_tick(s: AppState, now: u64, n: nat) -> AppState
    decreases n,
{
    if n == 0 {
        s
    } else {
        iterate_tick(spec_tick_state(s, now), now, (n - 1) as nat)
    }
}

/// While a scan is in flight or any confirmation or error is showing — any
/// state but `Idle` — no new scan is accepted, so at most one scan is ever
/// in flight.
pub proof fn lemma_non_idle_precludes_scan(
    s: AppState,
    last: Option<(Seq<char>, u64)>,
    tag: Seq<char>,
    now: u64,
    window: u64,
)
    requires
        !(s matches AppState::Idle { .. }),
    ensures
        !spec_scan_accepted(s, last, tag, now, window),
{
}

/// Every scan result taken in `Loading` lands on exactly one outcome
/// screen: the matching confirmation on success, the offline confirmation
/// on a transient failure, an error screen otherwise — never `Idle`, never
/// `Loading`, and the variants of one state exclude each other.
pub proof fn lemma_scan_has_one_outcome(
    outcome: Result<ClockResponse, ApiError>,
    now: u64,
    idle_timeout: u64,
    error_timeout: u64,
    post: AppState,
)
    requires
        match outcome {
            Result::Ok(resp) => spec_scan_ok_state(resp, idle_timeout, post),
            Result::Err(e) => spec_scan_err_state(e, now, idle_timeout, error_timeout, post),
        },
    ensures
        post matches AppState::ClockIn { .. } || post matches AppState::ClockOut { .. }
            || post matches AppState::OfflineConfirm { .. } || post matches AppState::Error {
            ..
        },
        !(post matches AppState::Idle { .. }),
        !(post matches AppState::Loading { .. }),
        match outcome {
            Result::Ok(resp) => if resp.entry_type@ == "CLOCK_IN"@ {
                post matches AppState::ClockIn { .. }
            } else {
                post matches AppState::ClockOut { .. }
            },
            Result::Err(e) => if spec_is_transient(e) {
                post matches AppState::OfflineConfirm { .. }
            } else {
                post matches AppState::Error { .. }
            },
        },
{
}

/// Any state with a countdown at `k` seconds is back on `Idle` after at
/// most `k + 1` ticks. (`Loading` carries no countdown: it waits for its
/// scan's result, whose arrival is bounded by the transport's timeout, not
/// by ticks.)
pub proof fn lemma_countdown_returns_to_idle(s: AppState, now: u64, k: u64)
    requires
        (s matches AppState::ClockIn { seconds_left, .. } && seconds_left == k) || (
        s matches AppState::ClockOut { seconds_left, .. } && seconds_left == k) || (
        s matches AppState::OfflineConfirm { seconds_left, .. } && seconds_left == k) || (
        s matches AppState::Error { seconds_left, .. } && seconds_left == k),
    ensures
        iterate_tick(s, now, k as nat + 1) == (AppState::Idle { now_ms: now }),
    decreases k,
{
    if k == 0 {
        assert(spec_tick_state(s, now) == (AppState::Idle { now_ms: now }));
        assert(iterate_tick(s, now, 1) == iterate_tick(AppState::Idle { now_ms: now }, now, 0));
    } else {
        lemma_countdown_returns_to_idle(spec_tick_state(s, now), now, (k - 1) as u64);
    }
}

} // verus!
