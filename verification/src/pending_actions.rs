//! Destructive actions queued with a countdown, which can be cancelled until it runs out.
use crate::http::{path_element, path_element_or_empty, path_get, path_get_or_empty, HttpMethod, Permission};
use crate::ids::new_record_id;
use crate::text::{cat3, chars_of, decimal, decimal_string, eq_chars, hex};
use crate::url::{decode_path_element, decoded_path_element};
use std::time::Instant;
use vstd::prelude::*;

verus! {

/// `std::time::Instant`, carried through as an opaque value.
#[verifier::external_type_specification]
#[verifier::external_body]
pub struct ExInstant(std::time::Instant);

/// Calls `Instant::now()`; nothing is claimed of the value.
#[verifier::external_body]
fn instant_now() -> (r: Instant) {
    Instant::now()
}

/// What `Instant::duration_since` gives for two instants: the time from `since`
/// to `now`, or zero where `since` is the later one.
pub uninterp spec fn elapsed_between(now: Instant, since: Instant) -> std::time::Duration;

/// What `Duration::as_secs` gives for a duration: its whole seconds.
pub uninterp spec fn duration_secs(d: std::time::Duration) -> u64;

/// Calls `now.duration_since(*since)`; the result is `elapsed_between` of the
/// two instants, nothing more is claimed of it.
#[verifier::external_body]
fn duration_since(now: &Instant, since: &Instant) -> (r: std::time::Duration)
    ensures
        r == elapsed_between(*now, *since),
{
    now.duration_since(*since)
}

/// Calls `Duration::as_secs`; the result is `duration_secs` of the duration.
#[verifier::external_body]
fn whole_seconds(d: &std::time::Duration) -> (r: u64)
    ensures
        r == duration_secs(*d),
{
    d.as_secs()
}

/// The whole seconds from the instant `since` to the instant `now`.
pub open spec fn secs_between(since: Instant, now: Instant) -> u64 {
    duration_secs(elapsed_between(now, since))
}

/// The whole seconds from `since` to `now`.
fn whole_seconds_between(since: &Instant, now: &Instant) -> (r: u64)
    ensures
        r == secs_between(*since, *now),
        r == duration_secs(elapsed_between(*now, *since)),
{
    let d = duration_since(now, since);
    whole_seconds(&d)
}

/// Countdown in seconds when the request gives none.
pub const DEFAULT_COUNTDOWN_SECS: u64 = 5;

/// A pending action queued for deferred execution with a countdown.
pub struct PendingAction {
    pub id: String,
    pub action_type: String,
    pub description: String,
    pub target: String,
    pub countdown_secs: u64,
    pub created_at: Instant,
    pub cancelled: bool,
}

/// A pending action taken by its characters.
pub struct PendingActionView {
    pub id: Seq<char>,
    pub action_type: Seq<char>,
    pub description: Seq<char>,
    pub target: Seq<char>,
    pub countdown_secs: u64,
    pub created_at: Instant,
    pub cancelled: bool,
}

impl View for PendingAction {
    type V = PendingActionView;

    open spec fn view(&self) -> PendingActionView {
        PendingActionView {
            id: self.id@,
            action_type: self.action_type@,
            description: self.description@,
            target: self.target@,
            countdown_secs: self.countdown_secs,
            created_at: self.created_at,
            cancelled: self.cancelled,
        }
    }
}

/// A request to queue an action.
pub struct PendingActionRequest {
    /// Type of action: "remove_port", "restore", "rebuild_deploy", "restart_container", "delete_service"
    pub action_type: String,
    /// Target identifier (port id, service name, etc.)
    pub target: String,
    /// Human-readable description
    pub description: Option<String>,
    /// Countdown in seconds (default: 5)
    pub countdown_secs: Option<u64>,
    /// For delete_service: the confirmation name typed by the user
    pub confirmation_name: Option<String>,
}

/// A queued action as a listing shows it.
pub struct PendingActionResponse {
    pub id: String,
    pub action_type: String,
    pub target: String,
    pub countdown_secs: u64,
    pub remaining_secs: u64,
    pub status: String,
}

/// A listed action taken by its characters.
pub struct PendingActionResponseView {
    pub id: Seq<char>,
    pub action_type: Seq<char>,
    pub target: Seq<char>,
    pub countdown_secs: u64,
    pub remaining_secs: u64,
    pub status: Seq<char>,
}

impl View for PendingActionResponse {
    type V = PendingActionResponseView;

    open spec fn view(&self) -> PendingActionResponseView {
        PendingActionResponseView {
            id: self.id@,
            action_type: self.action_type@,
            target: self.target@,
            countdown_secs: self.countdown_secs,
            remaining_secs: self.remaining_secs,
            status: self.status@,
        }
    }
}

/// Seconds left of a countdown after `elapsed` seconds (never below zero).
pub open spec fn remaining(countdown: u64, elapsed: u64) -> u64 {
    if countdown > elapsed {
        (countdown - elapsed) as u64
    } else {
        0
    }
}

/// How an action is listed `elapsed` seconds after it was queued: "pending"
/// while time is left, "executing" after.
pub open spec fn listed_action(a: PendingActionView, elapsed: u64) -> PendingActionResponseView {
    PendingActionResponseView {
        id: a.id,
        action_type: a.action_type,
        target: a.target,
        countdown_secs: a.countdown_secs,
        remaining_secs: remaining(a.countdown_secs, elapsed),
        status: if remaining(a.countdown_secs, elapsed) > 0 {
            "pending"@
        } else {
            "executing"@
        },
    }
}

impl PendingActionResponse {
    /// The listing of an action after `elapsed` seconds.
    pub fn for_action(a: &PendingAction, elapsed: u64) -> (r: PendingActionResponse)
        ensures
            r@ == listed_action(a@, elapsed),
    {
        let remaining_secs = a.countdown_secs.saturating_sub(elapsed);
        PendingActionResponse {
            id: a.id.clone(),
            action_type: a.action_type.clone(),
            target: a.target.clone(),
            countdown_secs: a.countdown_secs,
            remaining_secs,
            status: if remaining_secs > 0 {
                "pending".to_owned()
            } else {
                "executing".to_owned()
            },
        }
    }
}

/// A request to delete a service must name the service again; other actions need no confirmation.
pub open spec fn confirmed(action_type: Seq<char>, target: Seq<char>, confirmation: Option<Seq<char>>) -> bool {
    action_type == "delete_service"@ ==> match confirmation {
        Some(c) => c == target,
        None => target.len() == 0,
    }
}

/// Whether the request carries the confirmation its action needs.
pub fn is_confirmed(request: &PendingActionRequest) -> (r: bool)
    ensures
        r == confirmed(request.action_type@, request.target@, crate::text::opt_chars(request.confirmation_name)),
{
    if !eq_chars(&chars_of(request.action_type.as_str()), &chars_of("delete_service")) {
        return true;
    }
    let target = chars_of(request.target.as_str());
    match &request.confirmation_name {
        Some(c) => eq_chars(&chars_of(c.as_str()), &target),
        None => request.target.as_str().is_empty(),
    }
}

/// The description given, or "<action type> on <target>".
pub open spec fn description_of(request_description: Option<Seq<char>>, action_type: Seq<char>, target: Seq<char>) -> Seq<char> {
    match request_description {
        Some(d) => d,
        None => action_type + " on "@ + target,
    }
}

/// The action a request queues under an id at a time: countdown 5 seconds by default, not cancelled.
pub open spec fn action_of(id: Seq<char>, request: PendingActionRequest, created_at: Instant) -> PendingActionView {
    PendingActionView {
        id: id,
        action_type: request.action_type@,
        description: description_of(crate::text::opt_chars(request.description), request.action_type@, request.target@),
        target: request.target@,
        countdown_secs: match request.countdown_secs {
            Some(c) => c,
            None => DEFAULT_COUNTDOWN_SECS,
        },
        created_at: created_at,
        cancelled: false,
    }
}

impl PendingAction {
    /// The action a request queues under an id, stamped with a time.
    pub fn from_request(id: String, request: &PendingActionRequest, created_at: Instant) -> (r: PendingAction)
        ensures
            r@ == action_of(id@, *request, created_at),
    {
        let description = match &request.description {
            Some(d) => d.clone(),
            None => cat3(request.action_type.as_str(), " on ", request.target.as_str()),
        };
        PendingAction {
            id,
            action_type: request.action_type.clone(),
            description,
            target: request.target.clone(),
            countdown_secs: match request.countdown_secs {
                Some(c) => c,
                None => DEFAULT_COUNTDOWN_SECS,
            },
            created_at,
            cancelled: false,
        }
    }
}

} // verus!

verus! {

/// What cancelling an action answers.
pub enum CancelOutcome {
    /// No action has the id.
    NotFound,
    /// The action was cancelled before.
    AlreadyCancelled,
    /// The countdown ran out: the action has been executed.
    Expired,
    /// The action is cancelled now.
    Cancelled { action_type: String, target: String },
}

/// A cancellation outcome taken by its characters.
pub enum CancelOutcomeView {
    NotFound,
    AlreadyCancelled,
    Expired,
    Cancelled { action_type: Seq<char>, target: Seq<char> },
}

impl View for CancelOutcome {
    type V = CancelOutcomeView;

    open spec fn view(&self) -> CancelOutcomeView {
        match self {
            CancelOutcome::NotFound => CancelOutcomeView::NotFound,
            CancelOutcome::AlreadyCancelled => CancelOutcomeView::AlreadyCancelled,
            CancelOutcome::Expired => CancelOutcomeView::Expired,
            CancelOutcome::Cancelled { action_type, target } => CancelOutcomeView::Cancelled {
                action_type: action_type@,
                target: target@,
            },
        }
    }
}

/// Cancelling an action `elapsed` seconds after it was queued: refused when it was
/// cancelled before or its countdown ran out; otherwise it is marked cancelled.
pub open spec fn cancel_result(a: PendingActionView, elapsed: u64) -> (CancelOutcomeView, PendingActionView) {
    if a.cancelled {
        (CancelOutcomeView::AlreadyCancelled, a)
    } else if elapsed >= a.countdown_secs {
        (CancelOutcomeView::Expired, a)
    } else {
        (
            CancelOutcomeView::Cancelled { action_type: a.action_type, target: a.target },
            PendingActionView { cancelled: true, ..a },
        )
    }
}

impl PendingAction {
    /// Cancels the action `elapsed` seconds after it was queued.
    pub fn cancel_after(&mut self, elapsed: u64) -> (r: CancelOutcome)
        ensures
            (r@, final(self)@) == cancel_result(old(self)@, elapsed),
    {
        if self.cancelled {
            CancelOutcome::AlreadyCancelled
        } else if elapsed >= self.countdown_secs {
            CancelOutcome::Expired
        } else {
            self.cancelled = true;
            CancelOutcome::Cancelled { action_type: self.action_type.clone(), target: self.target.clone() }
        }
    }
}

/// The actions of a list, taken by their characters.
pub open spec fn action_views(s: Seq<PendingAction>) -> Seq<PendingActionView> {
    s.map_values(|a: PendingAction| a@)
}

/// The actions of a list, by id.
pub open spec fn action_map(s: Seq<PendingActionView>) -> Map<Seq<char>, PendingActionView> {
    Map::new(
        |k: Seq<char>| exists|i: int| 0 <= i < s.len() && #[trigger] s[i].id == k,
        |k: Seq<char>| s[choose|i: int| 0 <= i < s.len() && #[trigger] s[i].id == k],
    )
}

/// No two actions of a list share an id.
pub open spec fn unique_ids(s: Seq<PendingActionView>) -> bool {
    forall|i: int, j: int| 0 <= i < j < s.len() ==> s[i].id != s[j].id
}

/// An action runs when its countdown ends only if it is still queued and not cancelled.
pub open spec fn should_run(m: Map<Seq<char>, PendingActionView>, id: Seq<char>) -> bool {
    m.contains_key(id) && !m[id].cancelled
}

/// A listing entry shows the action as it stands at the instant `now`.
pub open spec fn listed_at(a: PendingActionView, entry: PendingActionResponseView, now: Instant) -> bool {
    entry == listed_action(a, secs_between(a.created_at, now))
}

/// A listing taken at the instant `now`: every entry is a queued action that is
/// not cancelled, shown with the seconds from its creation to `now`.
pub open spec fn listing_at(m: Map<Seq<char>, PendingActionView>, entries: Seq<PendingActionResponse>, now: Instant) -> bool {
    forall|i: int|
        0 <= i < entries.len() ==> {
            &&& #[trigger] should_run(m, entries[i].id@)
            &&& listed_at(m[entries[i].id@], entries[i]@, now)
        }
}

/// The actions waiting for their countdown, by id.
pub struct PendingActions {
    actions: Vec<PendingAction>,
}

impl View for PendingActions {
    type V = Map<Seq<char>, PendingActionView>;

    closed spec fn view(&self) -> Map<Seq<char>, PendingActionView> {
        action_map(action_views(self.actions@))
    }
}

proof fn lemma_map_at(s: Seq<PendingActionView>, i: int)
    requires
        unique_ids(s),
        0 <= i < s.len(),
    ensures
        action_map(s).contains_key(s[i].id),
        action_map(s)[s[i].id] == s[i],
{
    let k = s[i].id;
    assert(exists|j: int| 0 <= j < s.len() && #[trigger] s[j].id == k);
    let j = choose|j: int| 0 <= j < s.len() && #[trigger] s[j].id == k;
    if j != i {
        if j < i {
            assert(s[j].id != s[i].id);
        } else {
            assert(s[i].id != s[j].id);
        }
    }
}

/// Replacing the action at one place by one with the same id keeps the ids
/// unique and replaces that id's entry in the map.
proof fn lemma_update_at(before: Seq<PendingActionView>, i: int, a: PendingActionView)
    requires
        unique_ids(before),
        0 <= i < before.len(),
        before[i].id == a.id,
    ensures
        unique_ids(before.update(i, a)),
        action_map(before.update(i, a)) == action_map(before).insert(a.id, a),
{
    let after = before.update(i, a);
    assert forall|x: int, y: int| 0 <= x < y < after.len() implies after[x].id != after[y].id by {
        assert(before[x].id != before[y].id);
    }
    assert forall|k: Seq<char>| #[trigger] action_map(after).contains_key(k) <==> action_map(before).insert(a.id, a).contains_key(k) by {
        if action_map(after).contains_key(k) {
            let j = choose|j: int| 0 <= j < after.len() && #[trigger] after[j].id == k;
            if j != i {
                assert(before[j].id == k);
            }
        }
        if action_map(before).contains_key(k) {
            let j = choose|j: int| 0 <= j < before.len() && #[trigger] before[j].id == k;
            assert(after[j].id == k);
        }
        if k == a.id {
            assert(after[i].id == k);
        }
    }
    assert forall|k: Seq<char>| #[trigger] action_map(after).contains_key(k) implies action_map(after)[k] == action_map(before).insert(a.id, a)[k] by {
        let j = choose|j: int| 0 <= j < after.len() && #[trigger] after[j].id == k;
        lemma_map_at(after, j);
        if j != i {
            lemma_map_at(before, j);
            if j < i {
                assert(after[j].id != after[i].id);
            } else {
                assert(after[i].id != after[j].id);
            }
        }
    }
    assert(action_map(after) =~= action_map(before).insert(a.id, a));
}

impl PendingActions {
    /// No two actions share an id.
    pub closed spec fn wf(&self) -> bool {
        unique_ids(action_views(self.actions@))
    }

    fn find(&self, id: &str) -> (r: Option<usize>)
        requires
            self.wf(),
        ensures
            r is None <==> !self@.contains_key(id@),
            r matches Some(i) ==> i < self.actions.len() && self.actions@[i as int].id@ == id@
                && self@[id@] == self.actions@[i as int]@,
    {
        let ghost s = action_views(self.actions@);
        let k = chars_of(id);
        let mut i: usize = 0;
        while i < self.actions.len()
            invariant
                i <= self.actions.len(),
                s == action_views(self.actions@),
                unique_ids(s),
                k@ == id@,
                forall|j: int| 0 <= j < i ==> s[j].id != id@,
            decreases self.actions.len() - i,
        {
            if eq_chars(&chars_of(self.actions[i].id.as_str()), &k) {
                proof { lemma_map_at(s, i as int); }
                return Some(i);
            }
            i += 1;
        }
        None
    }

    /// No action is queued.
    pub fn new() -> (r: PendingActions)
        ensures
            r.wf(),
            r@ == Map::<Seq<char>, PendingActionView>::empty(),
    {
        let r = PendingActions { actions: Vec::new() };
        assert(r@ =~= Map::<Seq<char>, PendingActionView>::empty());
        r
    }

    /// Queues an action under its id, replacing one with the same id.
    pub fn insert(&mut self, action: PendingAction)
        requires
            old(self).wf(),
        ensures
            final(self).wf(),
            final(self)@ == old(self)@.insert(action.id@, action@),
    {
        let ghost a = action@;
        let ghost before = action_views(self.actions@);
        match self.find(action.id.as_str()) {
            Some(i) => {
                self.actions.set(i, action);
                proof {
                    assert(action_views(self.actions@) =~= before.update(i as int, a));
                    lemma_update_at(before, i as int, a);
                }
            },
            None => {
                self.actions.push(action);
                let ghost after = action_views(self.actions@);
                proof {
                    assert(after =~= before.push(a));
                    assert forall|x: int| 0 <= x < before.len() implies before[x].id != a.id by {
                        if before[x].id == a.id {
                            assert(action_map(before).contains_key(a.id));
                        }
                    }
                    assert forall|k: Seq<char>| #[trigger] action_map(after).contains_key(k) <==> action_map(before).insert(a.id, a).contains_key(k) by {
                        if action_map(after).contains_key(k) {
                            let j = choose|j: int| 0 <= j < after.len() && #[trigger] after[j].id == k;
                            if j < before.len() {
                                assert(before[j].id == k);
                            }
                        }
                        if action_map(before).contains_key(k) {
                            let j = choose|j: int| 0 <= j < before.len() && #[trigger] before[j].id == k;
                            assert(after[j].id == k);
                        }
                        if k == a.id {
                            assert(after[before.len() as int].id == k);
                        }
                    }
                    assert forall|k: Seq<char>| #[trigger] action_map(after).contains_key(k) implies action_map(after)[k] == action_map(before).insert(a.id, a)[k] by {
                        let j = choose|j: int| 0 <= j < after.len() && #[trigger] after[j].id == k;
                        lemma_map_at(after, j);
                        if j < before.len() {
                            lemma_map_at(before, j);
                        }
                    }
                    assert(action_map(after) =~= action_map(before).insert(a.id, a));
                }
            },
        }
    }

    /// Removes the action with the id, if any.
    pub fn remove(&mut self, id: &str)
        requires
            old(self).wf(),
        ensures
            final(self).wf(),
            final(self)@ == old(self)@.remove(id@),
    {
        let ghost before = action_views(self.actions@);
        match self.find(id) {
            Some(i) => {
                self.actions.remove(i);
                let ghost after = action_views(self.actions@);
                proof {
                    assert(after =~= before.remove(i as int));
                    assert forall|x: int, y: int| 0 <= x < y < after.len() implies after[x].id != after[y].id by {
                        let bx = if x < i { x } else { x + 1 };
                        let by = if y < i { y } else { y + 1 };
                        assert(before[bx].id != before[by].id);
                    }
                    assert forall|k: Seq<char>| #[trigger] action_map(after).contains_key(k) <==> action_map(before).remove(id@).contains_key(k) by {
                        if action_map(after).contains_key(k) {
                            let j = choose|j: int| 0 <= j < after.len() && #[trigger] after[j].id == k;
                            let bj = if j < i { j } else { j + 1 };
                            assert(before[bj].id == k);
                            assert(before[bj].id != before[i as int].id);
                        }
                        if action_map(before).contains_key(k) && k != id@ {
                            let j = choose|j: int| 0 <= j < before.len() && #[trigger] before[j].id == k;
                            if j < i {
                                assert(after[j].id == k);
                            } else {
                                assert(j != i);
                                assert(after[j - 1].id == k);
                            }
                        }
                    }
                    assert forall|k: Seq<char>| #[trigger] action_map(after).contains_key(k) implies action_map(after)[k] == action_map(before).remove(id@)[k] by {
                        let j = choose|j: int| 0 <= j < after.len() && #[trigger] after[j].id == k;
                        lemma_map_at(after, j);
                        let bj = if j < i { j } else { j + 1 };
                        lemma_map_at(before, bj);
                    }
                    assert(action_map(after) =~= action_map(before).remove(id@));
                }
            },
            None => {
                assert(self@ =~= self@.remove(id@));
            },
        }
    }

    /// Whether the action with the id should run when its countdown ends.
    pub fn should_execute(&self, id: &str) -> (r: bool)
        requires
            self.wf(),
        ensures
            r == should_run(self@, id@),
    {
        match self.find(id) {
            Some(i) => !self.actions[i].cancelled,
            None => false,
        }
    }

    /// Cancels the action with the id, judged by the time elapsed since it was queued.
    pub fn cancel(&mut self, id: &str) -> (r: CancelOutcome)
        requires
            old(self).wf(),
        ensures
            final(self).wf(),
            !old(self)@.contains_key(id@) ==> r is NotFound && final(self)@ == old(self)@,
            old(self)@.contains_key(id@) ==> exists|now: Instant| {
                let res = cancel_result(old(self)@[id@], #[trigger] secs_between(old(self)@[id@].created_at, now));
                &&& r@ == res.0
                &&& final(self)@ == old(self)@.insert(id@, res.1)
            },
    {
        match self.find(id) {
            Some(i) => {
                let now = instant_now();
                let elapsed = whole_seconds_between(&self.actions[i].created_at, &now);
                let mut action = self.actions.remove(i);
                let r = action.cancel_after(elapsed);
                let ghost res = cancel_result(old(self)@[id@], elapsed);
                assert(res.1.id == id@);
                self.actions.insert(i, action);
                assert(action_views(self.actions@) =~= action_views(old(self).actions@).update(i as int, res.1));
                proof {
                    lemma_update_at(action_views(old(self).actions@), i as int, res.1);
                    assert(self@ == old(self)@.insert(id@, res.1));
                    assert(cancel_result(old(self)@[id@], secs_between(old(self)@[id@].created_at, now)) == res);
                }
                r
            },
            None => CancelOutcome::NotFound,
        }
    }

    /// The queued actions that are not cancelled, as a listing shows them now.
    pub fn list(&self) -> (r: Vec<PendingActionResponse>)
        requires
            self.wf(),
        ensures
            exists|now: Instant| #[trigger] listing_at(self@, r@, now),
            forall|k: Seq<char>| should_run(self@, k) ==> exists|i: int| 0 <= i < r.len() && #[trigger] r@[i].id@ == k,
            forall|i: int, j: int| 0 <= i < j < r.len() ==> r@[i].id@ != r@[j].id@,
    {
        let ghost s = action_views(self.actions@);
        let now = instant_now();
        let mut r: Vec<PendingActionResponse> = Vec::new();
        let mut i: usize = 0;
        while i < self.actions.len()
            invariant
                i <= self.actions.len(),
                s == action_views(self.actions@),
                unique_ids(s),
                forall|x: int| 0 <= x < r.len() ==> entry_from(s, i as int, #[trigger] r@[x]@, now),
                forall|j: int| 0 <= j < i && !s[j].cancelled ==> exists|x: int| 0 <= x < r.len() && #[trigger] r@[x].id@ == s[j].id,
                forall|x: int, y: int| 0 <= x < y < r.len() ==> r@[x].id@ != r@[y].id@,
            decreases self.actions.len() - i,
        {
            let ghost old_r = r@;
            if !self.actions[i].cancelled {
                let elapsed = whole_seconds_between(&self.actions[i].created_at, &now);
                let item = PendingActionResponse::for_action(&self.actions[i], elapsed);
                r.push(item);
                proof {
                    let e = r@[r.len() - 1]@;
                    assert(e == listed_action(s[i as int], elapsed));
                    assert(listed_at(s[i as int], e, now));
                    assert(entry_from(s, i + 1, e, now));
                    assert forall|x: int| 0 <= x < r.len() implies entry_from(s, i + 1, #[trigger] r@[x]@, now) by {
                        if x < r.len() - 1 {
                            assert(r@[x] == old_r[x]);
                            lemma_entry_from_grows(s, i as int, r@[x]@, now);
                        }
                    }
                    assert forall|x: int, y: int| 0 <= x < y < r.len() implies r@[x].id@ != r@[y].id@ by {
                        if y == r.len() - 1 {
                            assert(r@[x] == old_r[x]);
                            assert(entry_from(s, i as int, old_r[x]@, now));
                            let j = choose|j: int| 0 <= j < i && #[trigger] s[j].id == old_r[x]@.id && !s[j].cancelled && listed_at(s[j], old_r[x]@, now);
                            assert(s[j].id != s[i as int].id);
                        }
                    }
                    assert forall|j: int| 0 <= j < i + 1 && !s[j].cancelled implies exists|x: int| 0 <= x < r.len() && #[trigger] r@[x].id@ == s[j].id by {
                        if j == i {
                            assert(r@[r.len() - 1].id@ == s[j].id);
                        } else {
                            let x = choose|x: int| 0 <= x < old_r.len() && #[trigger] old_r[x].id@ == s[j].id;
                            assert(r@[x] == old_r[x]);
                        }
                    }
                }
            } else {
                proof {
                    assert forall|x: int| 0 <= x < r.len() implies entry_from(s, i + 1, #[trigger] r@[x]@, now) by {
                        lemma_entry_from_grows(s, i as int, r@[x]@, now);
                    }
                }
            }
            i += 1;
        }
        proof {
            assert forall|x: int| 0 <= x < r.len() implies #[trigger] should_run(self@, r@[x].id@) && listed_at(self@[r@[x].id@], r@[x]@, now) by {
                assert(entry_from(s, s.len() as int, r@[x]@, now));
                let j = choose|j: int| 0 <= j < s.len() && #[trigger] s[j].id == r@[x]@.id && !s[j].cancelled && listed_at(s[j], r@[x]@, now);
                lemma_map_at(s, j);
            }
            assert(listing_at(self@, r@, now));
            assert forall|k: Seq<char>| should_run(self@, k) implies exists|x: int| 0 <= x < r.len() && #[trigger] r@[x].id@ == k by {
                let j = choose|j: int| 0 <= j < s.len() && #[trigger] s[j].id == k;
                lemma_map_at(s, j);
            }
        }
        r
    }
}

/// A listing entry taken at `now` comes from an action among the first `i`, which is not cancelled.
pub open spec fn entry_from(s: Seq<PendingActionView>, i: int, e: PendingActionResponseView, now: Instant) -> bool {
    exists|j: int| 0 <= j < i && #[trigger] s[j].id == e.id && !s[j].cancelled && listed_at(s[j], e, now)
}

proof fn lemma_entry_from_grows(s: Seq<PendingActionView>, i: int, e: PendingActionResponseView, now: Instant)
    requires
        entry_from(s, i, e, now),
    ensures
        entry_from(s, i + 1, e, now),
{
    let j = choose|j: int| 0 <= j < i && #[trigger] s[j].id == e.id && !s[j].cancelled && listed_at(s[j], e, now);
    assert(0 <= j < i + 1 && s[j].id == e.id);
}

} // verus!

verus! {

/// What queuing an action answers.
pub enum QueueOutcome {
    /// A service deletion was not confirmed by typing the service name.
    ConfirmationRequired { expected: String },
    /// The action is queued under a new id.
    Queued { id: String, action_type: String, target: String, countdown_secs: u64 },
}

impl PendingActions {
    /// Queues the action a request asks for, under a new random id, unless a
    /// service deletion lacks its confirmation.
    pub fn queue(&mut self, request: &PendingActionRequest) -> (r: QueueOutcome)
        requires
            old(self).wf(),
        ensures
            final(self).wf(),
            !confirmed(request.action_type@, request.target@, crate::text::opt_chars(request.confirmation_name)) ==> {
                &&& r matches QueueOutcome::ConfirmationRequired { expected } && expected@ == request.target@
                &&& final(self)@ == old(self)@
            },
            confirmed(request.action_type@, request.target@, crate::text::opt_chars(request.confirmation_name)) ==> {
                &&& r matches QueueOutcome::Queued { id, action_type, target, countdown_secs }
                &&& (exists|n: u64| id@ == hex(n as nat))
                &&& action_type@ == request.action_type@
                &&& target@ == request.target@
                &&& countdown_secs == match request.countdown_secs {
                    Some(c) => c,
                    None => DEFAULT_COUNTDOWN_SECS,
                }
                &&& exists|created_at: Instant| final(self)@ == old(self)@.insert(id@, #[trigger] action_of(id@, *request, created_at))
            },
    {
        if !is_confirmed(request) {
            return QueueOutcome::ConfirmationRequired { expected: request.target.clone() };
        }
        let id = new_record_id();
        let created_at = instant_now();
        let action = PendingAction::from_request(id.clone(), request, created_at);
        let countdown_secs = action.countdown_secs;
        let ghost av = action@;
        self.insert(action);
        assert(av == action_of(id@, *request, created_at));
        assert(self@ == old(self)@.insert(id@, action_of(id@, *request, created_at)));
        let r = QueueOutcome::Queued {
            id,
            action_type: request.action_type.clone(),
            target: request.target.clone(),
            countdown_secs,
        };
        assert(r matches QueueOutcome::Queued { id, action_type, target, countdown_secs });
        assert(exists|n: u64| (r->Queued_id)@ == hex(n as nat));
        assert(exists|created_at: Instant| self@ == old(self)@.insert((r->Queued_id)@, #[trigger] action_of((r->Queued_id)@, *request, created_at)));
        r
    }
}

/// The message that tells how to cancel a queued action.
pub open spec fn queued_message_text(countdown: u64, id: Seq<char>) -> Seq<char> {
    "Action will execute in "@ + decimal(countdown as nat) + " seconds. DELETE /api/actions/pending/"@ + id
        + " to cancel."@
}

/// `format!("Action will execute in {} seconds. DELETE /api/actions/pending/{} to cancel.", countdown, id)`.
pub fn queued_message(countdown: u64, id: &str) -> (r: String)
    ensures
        r@ == queued_message_text(countdown, id@),
{
    let secs = decimal_string(countdown);
    let head = cat3("Action will execute in ", secs.as_str(), " seconds. DELETE /api/actions/pending/");
    cat3(head.as_str(), id, " to cancel.")
}

/// What a request to the pending action endpoint asks for.
pub enum PendingRoute {
    List,
    Queue,
    Cancel(String),
    NotFound,
}

/// A route taken by its characters.
pub enum PendingRouteView {
    List,
    Queue,
    Cancel(Seq<char>),
    NotFound,
}

impl View for PendingRoute {
    type V = PendingRouteView;

    open spec fn view(&self) -> PendingRouteView {
        match self {
            PendingRoute::List => PendingRouteView::List,
            PendingRoute::Queue => PendingRouteView::Queue,
            PendingRoute::Cancel(id) => PendingRouteView::Cancel(id@),
            PendingRoute::NotFound => PendingRouteView::NotFound,
        }
    }
}

/// The route of a request by its second and third path elements and its method.
pub open spec fn pending_route(path: Seq<String>, method: HttpMethod) -> PendingRouteView {
    let first = path_element_or_empty(path, 1);
    let second = path_element(path, 2);
    if second is None && method == HttpMethod::Get && (first == "pending"@ || first.len() == 0) {
        PendingRouteView::List
    } else if second is None && method == HttpMethod::Post && (first == "pending"@ || first.len() == 0) {
        PendingRouteView::Queue
    } else if second is Some && method == HttpMethod::Delete && first == "pending"@ {
        PendingRouteView::Cancel(decoded_path_element(second->0))
    } else {
        PendingRouteView::NotFound
    }
}

/// The permission a route needs: viewing logs to list, restarting to queue or cancel.
pub open spec fn pending_route_permission(route: PendingRouteView) -> Option<Permission> {
    match route {
        PendingRouteView::List => Some(Permission::LogsView),
        PendingRouteView::Queue => Some(Permission::Restart),
        PendingRouteView::Cancel(_) => Some(Permission::Restart),
        PendingRouteView::NotFound => None,
    }
}

impl PendingRoute {
    /// Routes a request to the pending action endpoint.
    pub fn route(path: &Vec<String>, method: HttpMethod) -> (r: PendingRoute)
        ensures
            r@ == pending_route(path@, method),
    {
        let first = path_get_or_empty(path, 1);
        let second = path_get(path, 2);
        let is_pending = eq_chars(&chars_of(first.as_str()), &chars_of("pending"));
        let empty = first.as_str().is_empty();
        match second {
            None => {
                if method == HttpMethod::Get && (is_pending || empty) {
                    PendingRoute::List
                } else if method == HttpMethod::Post && (is_pending || empty) {
                    PendingRoute::Queue
                } else {
                    PendingRoute::NotFound
                }
            },
            Some(id) => {
                if method == HttpMethod::Delete && is_pending {
                    PendingRoute::Cancel(decode_path_element(id.as_str()))
                } else {
                    PendingRoute::NotFound
                }
            },
        }
    }

    /// The permission the route needs; `None` for an unknown route.
    pub fn permission(&self) -> (r: Option<Permission>)
        ensures
            r == pending_route_permission(self@),
    {
        match self {
            PendingRoute::List => Some(Permission::LogsView),
            PendingRoute::Queue => Some(Permission::Restart),
            PendingRoute::Cancel(_) => Some(Permission::Restart),
            PendingRoute::NotFound => None,
        }
    }
}

/// Cancelling a queued action before its countdown runs out succeeds, keeps it
/// from running, and any later cancellation answers that it was already cancelled.
pub proof fn lemma_cancel_stops_action(m: Map<Seq<char>, PendingActionView>, id: Seq<char>, elapsed: u64, later: u64)
    requires
        m.contains_key(id),
        !m[id].cancelled,
        elapsed < m[id].countdown_secs,
    ensures
        cancel_result(m[id], elapsed).0 is Cancelled,
        !should_run(m.insert(id, cancel_result(m[id], elapsed).1), id),
        cancel_result(cancel_result(m[id], elapsed).1, later).0 is AlreadyCancelled,
{
}

/// Once its countdown has run out, an action can no longer be cancelled and stays due to run.
pub proof fn lemma_expired_action_runs(m: Map<Seq<char>, PendingActionView>, id: Seq<char>, elapsed: u64)
    requires
        should_run(m, id),
        elapsed >= m[id].countdown_secs,
    ensures
        cancel_result(m[id], elapsed).0 is Expired,
        should_run(m.insert(id, cancel_result(m[id], elapsed).1), id),
{
    assert(m.insert(id, m[id]) =~= m);
}

/// A queued action is listed as pending with its whole countdown left, unless the countdown is zero.
pub proof fn lemma_new_action_listed_pending(id: Seq<char>, request: PendingActionRequest, created_at: Instant)
    ensures
        listed_action(action_of(id, request, created_at), 0).remaining_secs == action_of(id, request, created_at).countdown_secs,
        (listed_action(action_of(id, request, created_at), 0).status == "pending"@) <==> action_of(id, request, created_at).countdown_secs > 0,
{
    reveal_strlit("pending");
    reveal_strlit("executing");
    assert("pending"@ != "executing"@) by {
        assert("pending"@.len() != "executing"@.len());
    }
}

/// The seconds that judge an action are the time from its creation to the moment
/// asked about, `now.duration_since(created_at).as_secs()`: cancelling answers
/// Expired once they reach the countdown, and cancels the action before that.
pub proof fn lemma_cancel_judged_by_time_since_creation(a: PendingActionView, now: Instant)
    requires
        !a.cancelled,
    ensures
        secs_between(a.created_at, now) == duration_secs(elapsed_between(now, a.created_at)),
        duration_secs(elapsed_between(now, a.created_at)) >= a.countdown_secs
            ==> cancel_result(a, secs_between(a.created_at, now)).0 is Expired
                && !cancel_result(a, secs_between(a.created_at, now)).1.cancelled,
        duration_secs(elapsed_between(now, a.created_at)) < a.countdown_secs
            ==> cancel_result(a, secs_between(a.created_at, now)).0 is Cancelled
                && cancel_result(a, secs_between(a.created_at, now)).1.cancelled,
{
}

/// A listing taken at `now` shows the countdown less the whole seconds from the
/// action's creation to `now` (never below zero), "pending" while some are left
/// and "executing" after.
pub proof fn lemma_listing_counts_down(a: PendingActionView, entry: PendingActionResponseView, now: Instant)
    requires
        listed_at(a, entry, now),
    ensures
        entry.id == a.id,
        entry.countdown_secs == a.countdown_secs,
        a.countdown_secs <= duration_secs(elapsed_between(now, a.created_at)) ==> entry.remaining_secs == 0
            && entry.status == "executing"@,
        a.countdown_secs > duration_secs(elapsed_between(now, a.created_at)) ==> entry.remaining_secs
            == a.countdown_secs - duration_secs(elapsed_between(now, a.created_at)) && entry.status == "pending"@,
{
}

} // verus!
