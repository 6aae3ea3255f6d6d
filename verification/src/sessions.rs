//! The session reconstruction engine: a fold over the ordered event history
//! that yields one session for each stay in an instance, with the intervals
//! during which each other participant was present.

use vstd::prelude::*;
use vstd::string::*;

use crate::date::{timems, timestr, to_timems, to_timestr, utc_now_millis};
use crate::event::{EventView, LogPayload, PayloadView, VrcLogEvent};
use crate::store::{expanded_records, get_session_expanded_logs};

verus! {

/// A stretch of time, from `start` to `end`, both as stored timestamps.
#[derive(Debug, PartialEq, Eq)]
pub struct Interval {
    pub start: String,
    pub end: String,
}

/// The mathematical value of an [`Interval`].
pub struct IntervalView {
    pub start: Seq<char>,
    pub end: Seq<char>,
}

impl View for Interval {
    type V = IntervalView;

    open spec fn view(&self) -> IntervalView {
        IntervalView { start: self.start@, end: self.end@ }
    }
}

impl DeepView for Interval {
    type V = IntervalView;

    open spec fn deep_view(&self) -> IntervalView {
        self@
    }
}

impl Clone for Interval {
    fn clone(&self) -> (copy: Self)
        ensures
            copy == *self,
    {
        Interval { start: self.start.clone(), end: self.end.clone() }
    }
}

/// One participant of a session: the stretches during which they were
/// present, and how long these were in all.
#[derive(Debug, PartialEq, Eq)]
pub struct PlayerInterval {
    pub name: String,
    pub intervals: Vec<Interval>,
    pub total_duration_ms: i64,
}

/// The mathematical value of a [`PlayerInterval`].
pub struct PlayerIntervalView {
    pub name: Seq<char>,
    pub intervals: Seq<IntervalView>,
    pub total_duration_ms: i64,
}

impl View for PlayerInterval {
    type V = PlayerIntervalView;

    open spec fn view(&self) -> PlayerIntervalView {
        PlayerIntervalView {
            name: self.name@,
            intervals: self.intervals.deep_view(),
            total_duration_ms: self.total_duration_ms,
        }
    }
}

impl DeepView for PlayerInterval {
    type V = PlayerIntervalView;

    open spec fn deep_view(&self) -> PlayerIntervalView {
        self@
    }
}

/// One stay in an instance.
#[derive(Debug, PartialEq, Eq)]
pub struct SessionPayload {
    pub world_name: String,
    pub instance_id: String,
    pub start_time: String,
    pub end_time: String,
    pub duration_ms: i64,
    /// The display name of the user whose log this is, where it is known.
    pub username: Option<String>,
    /// The other participants, longest presence first.
    pub players: Vec<PlayerInterval>,
}

/// The mathematical value of a [`SessionPayload`].
pub struct SessionView {
    pub world_name: Seq<char>,
    pub instance_id: Seq<char>,
    pub start_time: Seq<char>,
    pub end_time: Seq<char>,
    pub duration_ms: i64,
    pub username: Option<Seq<char>>,
    pub players: Seq<PlayerIntervalView>,
}

impl View for SessionPayload {
    type V = SessionView;

    open spec fn view(&self) -> SessionView {
        SessionView {
            world_name: self.world_name@,
            instance_id: self.instance_id@,
            start_time: self.start_time@,
            end_time: self.end_time@,
            duration_ms: self.duration_ms,
            username: self.username.deep_view(),
            players: self.players.deep_view(),
        }
    }
}

impl DeepView for SessionPayload {
    type V = SessionView;

    open spec fn deep_view(&self) -> SessionView {
        self@
    }
}

/// The milliseconds from `start` to `end`. The difference is taken in 64
/// bits and wraps where it does not fit.
pub open spec fn span_ms(start: i64, end: i64) -> i64 {
    vstd::wrapping::i64_specs::wrapping_sub(end, start)
}

/// The length of an interval, read back from its two timestamps.
pub open spec fn interval_ms(interval: IntervalView) -> i64 {
    span_ms(timems(interval.start), timems(interval.end))
}

/// The sum of the lengths of `intervals`, in 64 bits.
pub open spec fn total_ms(intervals: Seq<IntervalView>) -> i64
    decreases intervals.len(),
{
    if intervals.len() == 0 {
        0
    } else {
        vstd::wrapping::i64_specs::wrapping_add(
            total_ms(intervals.drop_last()),
            interval_ms(intervals.last()),
        )
    }
}

/// The sum of the lengths of `intervals`.
pub fn total_duration(intervals: &Vec<Interval>) -> (total: i64)
    ensures
        total == total_ms(intervals.deep_view()),
{
    let mut total: i64 = 0;
    let mut i: usize = 0;
    while i < intervals.len()
        invariant
            i <= intervals.len(),
            total == total_ms(intervals.deep_view().subrange(0, i as int)),
        decreases intervals.len() - i,
    {
        let length = to_timems(intervals[i].end.as_str()).wrapping_sub(
            to_timems(intervals[i].start.as_str()),
        );
        proof {
            let done = intervals.deep_view().subrange(0, i as int);
            let next = intervals.deep_view().subrange(0, i + 1);
            assert(next.drop_last() == done);
            assert(next.last() == intervals[i as int]@);
        }
        total = total.wrapping_add(length);
        i += 1;
    }
    proof {
        assert(intervals.deep_view().subrange(0, i as int) == intervals.deep_view());
    }
    total
}

fn clone_intervals(intervals: &Vec<Interval>) -> (copy: Vec<Interval>)
    ensures
        copy.deep_view() == intervals.deep_view(),
{
    let mut copy: Vec<Interval> = Vec::new();
    let mut i: usize = 0;
    while i < intervals.len()
        invariant
            i <= intervals.len(),
            copy.deep_view() == intervals.deep_view().subrange(0, i as int),
        decreases intervals.len() - i,
    {
        let ghost before = copy.deep_view();
        copy.push(intervals[i].clone());
        proof {
            assert(copy.deep_view() =~= before.push(intervals[i as int]@));
            assert(intervals.deep_view().subrange(0, i + 1) =~= before.push(intervals[i as int]@));
        }
        i += 1;
    }
    copy
}

impl Clone for PlayerInterval {
    fn clone(&self) -> (copy: Self)
        ensures
            copy@ == self@,
    {
        PlayerInterval {
            name: self.name.clone(),
            intervals: clone_intervals(&self.intervals),
            total_duration_ms: self.total_duration_ms,
        }
    }
}

impl Clone for SessionPayload {
    fn clone(&self) -> (copy: Self)
        ensures
            copy@ == self@,
    {
        let mut players: Vec<PlayerInterval> = Vec::new();
        let mut i: usize = 0;
        while i < self.players.len()
            invariant
                i <= self.players.len(),
                players.deep_view() == self.players.deep_view().subrange(0, i as int),
            decreases self.players.len() - i,
        {
            let ghost before = players.deep_view();
            players.push(self.players[i].clone());
            proof {
                assert(players.deep_view() =~= before.push(self.players[i as int]@));
                assert(self.players.deep_view().subrange(0, i + 1) =~= before.push(
                    self.players[i as int]@,
                ));
            }
            i += 1;
        }
        proof {
            assert(self.players.deep_view().subrange(0, i as int) =~= self.players.deep_view());
        }
        SessionPayload {
            world_name: self.world_name.clone(),
            instance_id: self.instance_id.clone(),
            start_time: self.start_time.clone(),
            end_time: self.end_time.clone(),
            duration_ms: self.duration_ms,
            username: match &self.username {
                Some(name) => Some(name.clone()),
                None => None,
            },
            players,
        }
    }
}

/// Where a participant with `total` goes in a ranking: before the first
/// entry at or after `from` that was present for less time.
pub open spec fn rank_of(ranking: Seq<PlayerIntervalView>, total: i64, from: int) -> int
    decreases ranking.len() - from,
{
    if from < 0 || from >= ranking.len() {
        ranking.len() as int
    } else if ranking[from].total_duration_ms < total {
        from
    } else {
        rank_of(ranking, total, from + 1)
    }
}

/// `ranking` with `player` put in at its rank.
pub open spec fn placed(ranking: Seq<PlayerIntervalView>, player: PlayerIntervalView) -> Seq<
    PlayerIntervalView,
> {
    ranking.insert(rank_of(ranking, player.total_duration_ms, 0), player)
}

/// `players` in order of falling total duration; participants with equal
/// totals keep the order that they have in `players`.
pub open spec fn ranked(players: Seq<PlayerIntervalView>) -> Seq<PlayerIntervalView>
    decreases players.len(),
{
    if players.len() == 0 {
        Seq::empty()
    } else {
        placed(ranked(players.drop_last()), players.last())
    }
}

/// Puts `player` into `ranking` at its rank.
fn place(ranking: &mut Vec<PlayerInterval>, player: PlayerInterval)
    ensures
        final(ranking).deep_view() == placed(old(ranking).deep_view(), player@),
{
    let ghost before = ranking.deep_view();
    let mut i: usize = 0;
    while i < ranking.len() && ranking[i].total_duration_ms >= player.total_duration_ms
        invariant
            i <= ranking.len(),
            ranking.deep_view() == before,
            rank_of(before, player.total_duration_ms, 0) == rank_of(
                before,
                player.total_duration_ms,
                i as int,
            ),
        decreases ranking.len() - i,
    {
        i += 1;
    }
    ranking.insert(i, player);
    proof {
        assert(ranking.deep_view() =~= before.insert(i as int, player@));
    }
}

/// The user whose log this is.
struct Me {
    user_id: String,
    name: String,
}

/// The mathematical value of the recorded self-identity.
pub struct MeView {
    pub user_id: Seq<char>,
    pub name: Seq<char>,
}

/// The session that is open.
struct CurrentSessionState {
    world_name: String,
    instance_id: String,
    start_time: i64,
}

/// The mathematical value of the open session.
pub struct OpenSessionView {
    pub world_name: Seq<char>,
    pub instance_id: Seq<char>,
    pub start_time: i64,
}

/// What the fold knows of one participant of the open session.
struct PlayerTrack {
    user_id: String,
    /// The display name of the latest join.
    name: String,
    /// The time of the join, while the participant is present.
    active_since: Option<i64>,
    /// The stretches of presence that have ended.
    intervals: Vec<Interval>,
}

/// The mathematical value of what the fold knows of one participant.
pub struct TrackView {
    pub user_id: Seq<char>,
    pub name: Seq<char>,
    pub active_since: Option<i64>,
    pub intervals: Seq<IntervalView>,
}

impl View for PlayerTrack {
    type V = TrackView;

    closed spec fn view(&self) -> TrackView {
        TrackView {
            user_id: self.user_id@,
            name: self.name@,
            active_since: self.active_since,
            intervals: self.intervals.deep_view(),
        }
    }
}

impl DeepView for PlayerTrack {
    type V = TrackView;

    closed spec fn deep_view(&self) -> TrackView {
        self@
    }
}

/// The accumulator of the fold.
pub struct SessionBuilder {
    sessions: Vec<SessionPayload>,
    me: Option<Me>,
    current_session: Option<CurrentSessionState>,
    world_name: Option<String>,
    roster: Vec<PlayerTrack>,
}

/// The mathematical value of a [`SessionBuilder`].
pub struct BuilderView {
    /// The sessions closed so far, oldest first.
    pub sessions: Seq<SessionView>,
    /// The self-identity, once a login was seen. The latest login counts.
    pub me: Option<MeView>,
    /// The open session, if one is open.
    pub current: Option<OpenSessionView>,
    /// The world entered last, until an instance join takes it.
    pub world_name: Option<Seq<char>>,
    /// The participants of the open session, in the order of their first join.
    pub roster: Seq<TrackView>,
}

impl View for SessionBuilder {
    type V = BuilderView;

    closed spec fn view(&self) -> BuilderView {
        BuilderView {
            sessions: self.sessions.deep_view(),
            me: match self.me {
                Some(me) => Some(MeView { user_id: me.user_id@, name: me.name@ }),
                None => None,
            },
            current: match self.current_session {
                Some(open) => Some(
                    OpenSessionView {
                        world_name: open.world_name@,
                        instance_id: open.instance_id@,
                        start_time: open.start_time,
                    },
                ),
                None => None,
            },
            world_name: self.world_name.deep_view(),
            roster: self.roster.deep_view(),
        }
    }
}

/// The accumulator before any event.
pub open spec fn empty_builder() -> BuilderView {
    BuilderView {
        sessions: Seq::empty(),
        me: None,
        current: None,
        world_name: None,
        roster: Seq::empty(),
    }
}

/// The place of the first entry at or after `from` that belongs to `user_id`.
pub open spec fn position(roster: Seq<TrackView>, user_id: Seq<char>, from: int) -> Option<int>
    decreases roster.len() - from,
{
    if from < 0 || from >= roster.len() {
        None
    } else if roster[from].user_id == user_id {
        Some(from)
    } else {
        position(roster, user_id, from + 1)
    }
}

/// The roster after `user_id` joined at `ts` under `name`: their entry is
/// present since `ts` and carries the new name. A first join adds the entry
/// at the end.
pub open spec fn joined(roster: Seq<TrackView>, user_id: Seq<char>, name: Seq<char>, ts: i64) -> Seq<
    TrackView,
> {
    match position(roster, user_id, 0) {
        Some(i) => roster.update(
            i,
            TrackView { user_id, name, active_since: Some(ts), intervals: roster[i].intervals },
        ),
        None => roster.push(
            TrackView { user_id, name, active_since: Some(ts), intervals: Seq::empty() },
        ),
    }
}

/// The roster after `user_id` left at `ts`: where they were present, the
/// stretch from their join to `ts` is added to their intervals and they are
/// absent. A leave without a pending join changes nothing.
pub open spec fn departed(roster: Seq<TrackView>, user_id: Seq<char>, ts: i64) -> Seq<TrackView> {
    match position(roster, user_id, 0) {
        Some(i) => match roster[i].active_since {
            Some(since) => roster.update(
                i,
                TrackView {
                    user_id: roster[i].user_id,
                    name: roster[i].name,
                    active_since: None,
                    intervals: roster[i].intervals.push(
                        IntervalView { start: timestr(since), end: timestr(ts) },
                    ),
                },
            ),
            None => roster,
        },
        None => roster,
    }
}

/// The intervals of a participant once the session closes at `close_time`:
/// who is still present is taken to leave then.
pub open spec fn closed_intervals(track: TrackView, close_time: i64) -> Seq<IntervalView> {
    match track.active_since {
        Some(since) => track.intervals.push(
            IntervalView { start: timestr(since), end: timestr(close_time) },
        ),
        None => track.intervals,
    }
}

/// Whether `user_id` is the recorded self-identity.
pub open spec fn is_self(me: Option<MeView>, user_id: Seq<char>) -> bool {
    me matches Some(m) && m.user_id == user_id
}

/// The participants that a closing session lists, in roster order: everyone
/// with an interval, but for the self.
pub open spec fn listed(roster: Seq<TrackView>, me: Option<MeView>, close_time: i64) -> Seq<
    PlayerIntervalView,
>
    decreases roster.len(),
{
    if roster.len() == 0 {
        Seq::empty()
    } else {
        let before = listed(roster.drop_last(), me, close_time);
        let track = roster.last();
        let intervals = closed_intervals(track, close_time);
        if intervals.len() == 0 || is_self(me, track.user_id) {
            before
        } else {
            before.push(
                PlayerIntervalView {
                    name: track.name,
                    intervals,
                    total_duration_ms: total_ms(intervals),
                },
            )
        }
    }
}

/// The start and end of a closing session, in milliseconds. They are the
/// opening time and `close_time`, unless the self has intervals in the
/// roster: then the session runs from the start of the first of them to the
/// end of the last, both read back from the interval's timestamps.
pub open spec fn session_bounds(
    roster: Seq<TrackView>,
    me: Option<MeView>,
    opened: i64,
    close_time: i64,
) -> (i64, i64)
    decreases roster.len(),
{
    if roster.len() == 0 {
        (opened, close_time)
    } else {
        let track = roster.last();
        let intervals = closed_intervals(track, close_time);
        if intervals.len() != 0 && is_self(me, track.user_id) {
            (timems(intervals.first().start), timems(intervals.last().end))
        } else {
            session_bounds(roster.drop_last(), me, opened, close_time)
        }
    }
}

/// The session that closing at `close_time` yields.
pub open spec fn closed_session(
    open: OpenSessionView,
    roster: Seq<TrackView>,
    me: Option<MeView>,
    close_time: i64,
) -> SessionView {
    let (start, end) = session_bounds(roster, me, open.start_time, close_time);
    SessionView {
        world_name: open.world_name,
        instance_id: open.instance_id,
        start_time: timestr(start),
        end_time: timestr(end),
        duration_ms: span_ms(start, end),
        username: match me {
            Some(m) => Some(m.name),
            None => None,
        },
        players: ranked(listed(roster, me, close_time)),
    }
}

/// The accumulator after closing at `end_time`. With no session open
/// nothing changes. Else the closed session is added to the output and the
/// accumulator is reset but for the self-identity and the pending world.
pub open spec fn close_spec(b: BuilderView, end_time: i64) -> BuilderView {
    match b.current {
        Some(open) => BuilderView {
            sessions: b.sessions.push(closed_session(open, b.roster, b.me, end_time)),
            me: b.me,
            current: None,
            world_name: b.world_name,
            roster: Seq::empty(),
        },
        None => b,
    }
}

/// The accumulator after one more record.
pub open spec fn step_spec(b: BuilderView, record: PayloadView) -> BuilderView {
    let ts = timems(record.timestamp);
    match record.event {
        EventView::Login { username, user_id } => BuilderView {
            me: Some(MeView { user_id, name: username }),
            ..b
        },
        EventView::WorldEnter { world_name } => BuilderView { world_name: Some(world_name), ..b },
        EventView::InstanceJoin { world_id, instance_id } => {
            let closed = close_spec(b, ts);
            BuilderView {
                current: Some(
                    OpenSessionView {
                        world_name: match closed.world_name {
                            Some(name) => name,
                            None => "Unknown World"@,
                        },
                        instance_id,
                        start_time: ts,
                    },
                ),
                world_name: None,
                ..closed
            }
        },
        EventView::PlayerJoin { player_name, user_id } => if b.current is Some {
            BuilderView { roster: joined(b.roster, user_id, player_name, ts), ..b }
        } else {
            b
        },
        EventView::PlayerLeft { player_name, user_id } => if b.current is Some {
            BuilderView { roster: departed(b.roster, user_id, ts), ..b }
        } else {
            b
        },
        EventView::AppStop => close_spec(b, ts),
        EventView::InvalidAppStop => close_spec(b, ts),
        EventView::AppStart => b,
        EventView::SelfLeft => b,
    }
}

/// The accumulator after the records of `records`, taken in order.
pub open spec fn fold_spec(b: BuilderView, records: Seq<PayloadView>) -> BuilderView
    decreases records.len(),
{
    if records.len() == 0 {
        b
    } else {
        step_spec(fold_spec(b, records.drop_last()), records.last())
    }
}

/// The sessions of a history that is read at the instant `now`: a session
/// that is open when the records end is closed at `now`.
pub open spec fn sessions_spec(b: BuilderView, records: Seq<PayloadView>, now: i64) -> Seq<
    SessionView,
> {
    close_spec(fold_spec(b, records), now).sessions
}

fn find_track(roster: &Vec<PlayerTrack>, user_id: &String) -> (found: Option<usize>)
    ensures
        match found {
            Some(i) => {
                &&& i < roster.len()
                &&& position(roster.deep_view(), user_id@, 0) == Some(i as int)
                &&& roster.deep_view()[i as int].user_id == user_id@
            },
            None => position(roster.deep_view(), user_id@, 0) is None,
        },
{
    let mut i: usize = 0;
    while i < roster.len()
        invariant
            i <= roster.len(),
            position(roster.deep_view(), user_id@, 0) == position(
                roster.deep_view(),
                user_id@,
                i as int,
            ),
        decreases roster.len() - i,
    {
        if roster[i].user_id == *user_id {
            return Some(i);
        }
        i += 1;
    }
    None
}

fn close_track(track: &PlayerTrack, close_time: i64) -> (intervals: Vec<Interval>)
    ensures
        intervals.deep_view() == closed_intervals(track@, close_time),
{
    let mut intervals = clone_intervals(&track.intervals);
    match track.active_since {
        Some(since) => {
            let ghost before = intervals.deep_view();
            let last = Interval { start: to_timestr(since), end: to_timestr(close_time) };
            intervals.push(last);
            proof {
                assert(intervals.deep_view() =~= before.push(last@));
            }
        },
        None => {},
    }
    intervals
}

impl SessionBuilder {
    /// An accumulator that has seen no event.
    pub fn new() -> (builder: Self)
        ensures
            builder@ == empty_builder(),
    {
        let builder = SessionBuilder {
            sessions: Vec::new(),
            me: None,
            current_session: None,
            world_name: None,
            roster: Vec::new(),
        };
        proof {
            assert(builder@.sessions =~= Seq::empty());
            assert(builder@.roster =~= Seq::empty());
        }
        builder
    }

    /// Closes the open session at `end_time` and adds it to the output.
    /// Does nothing where no session is open.
    #[verifier::loop_isolation(false)]
    pub fn close_session(&mut self, end_time: i64)
        ensures
            final(self)@ == close_spec(old(self)@, end_time),
    {
        let open = match self.current_session.take() {
            Some(open) => open,
            None => {
                return ;
            },
        };
        let ghost roster = self.roster.deep_view();
        let ghost me = self@.me;
        let mut start = open.start_time;
        let mut end = end_time;
        let mut players: Vec<PlayerInterval> = Vec::new();
        let mut i: usize = 0;
        proof {
            assert(roster.subrange(0, 0) =~= Seq::empty());
            assert(players.deep_view() =~= Seq::empty());
        }
        while i < self.roster.len()
            invariant
                i <= self.roster.len(),
                self.roster.deep_view() == roster,
                self@.me == me,
                players.deep_view() == ranked(listed(roster.subrange(0, i as int), me, end_time)),
                (start, end) == session_bounds(
                    roster.subrange(0, i as int),
                    me,
                    open.start_time,
                    end_time,
                ),
            decreases self.roster.len() - i,
        {
            let track = &self.roster[i];
            let intervals = close_track(track, end_time);
            let is_me = match &self.me {
                Some(me) => me.user_id == track.user_id,
                None => false,
            };
            proof {
                let done = roster.subrange(0, i as int);
                let next = roster.subrange(0, i + 1);
                assert(next.drop_last() =~= done);
                assert(next.last() == track@);
                assert(is_me == is_self(me, track@.user_id));
            }
            if intervals.len() > 0 {
                if is_me {
                    start = to_timems(intervals[0].start.as_str());
                    end = to_timems(intervals[intervals.len() - 1].end.as_str());
                } else {
                    let total = total_duration(&intervals);
                    let player = PlayerInterval {
                        name: track.name.clone(),
                        intervals,
                        total_duration_ms: total,
                    };
                    proof {
                        let before = listed(roster.subrange(0, i as int), me, end_time);
                        assert(before.push(player@).drop_last() =~= before);
                    }
                    place(&mut players, player);
                }
            }
            i += 1;
        }
        proof {
            assert(roster.subrange(0, i as int) =~= roster);
        }
        self.roster = Vec::new();
        let username = match &self.me {
            Some(me) => Some(me.name.clone()),
            None => None,
        };
        let ghost before = self.sessions.deep_view();
        let session = SessionPayload {
            world_name: open.world_name,
            instance_id: open.instance_id,
            start_time: to_timestr(start),
            end_time: to_timestr(end),
            duration_ms: end.wrapping_sub(start),
            username,
            players,
        };
        self.sessions.push(session);
        proof {
            assert(self.sessions.deep_view() =~= before.push(session@));
            assert(self.roster.deep_view() =~= Seq::empty());
        }
    }

    /// Takes one more record into the fold.
    pub fn apply(&mut self, record: &LogPayload)
        ensures
            final(self)@ == step_spec(old(self)@, record@),
    {
        let ts = to_timems(record.timestamp.as_str());
        match &record.event {
            VrcLogEvent::Login { username, user_id } => {
                self.me = Some(Me { user_id: user_id.clone(), name: username.clone() });
            },
            VrcLogEvent::WorldEnter { world_name } => {
                self.world_name = Some(world_name.clone());
            },
            VrcLogEvent::InstanceJoin { world_id: _, instance_id } => {
                self.close_session(ts);
                let world_name = match self.world_name.take() {
                    Some(name) => name,
                    None => String::from_str("Unknown World"),
                };
                self.current_session = Some(
                    CurrentSessionState {
                        world_name,
                        instance_id: instance_id.clone(),
                        start_time: ts,
                    },
                );
            },
            VrcLogEvent::PlayerJoin { player_name, user_id } => {
                if self.current_session.is_some() {
                    let ghost before = self.roster.deep_view();
                    match find_track(&self.roster, user_id) {
                        Some(i) => {
                            self.roster[i].name = player_name.clone();
                            self.roster[i].active_since = Some(ts);
                            proof {
                                assert(self.roster.deep_view() =~= joined(
                                    before,
                                    user_id@,
                                    player_name@,
                                    ts,
                                ));
                            }
                        },
                        None => {
                            let track = PlayerTrack {
                                user_id: user_id.clone(),
                                name: player_name.clone(),
                                active_since: Some(ts),
                                intervals: Vec::new(),
                            };
                            self.roster.push(track);
                            proof {
                                assert(track@.intervals =~= Seq::empty());
                                assert(self.roster.deep_view() =~= before.push(track@));
                            }
                        },
                    }
                }
            },
            VrcLogEvent::PlayerLeft { player_name: _, user_id } => {
                if self.current_session.is_some() {
                    let ghost before = self.roster.deep_view();
                    match find_track(&self.roster, user_id) {
                        Some(i) => match self.roster[i].active_since {
                            Some(since) => {
                                let ghost track = self.roster[i as int]@;
                                let stay = Interval {
                                    start: to_timestr(since),
                                    end: to_timestr(ts),
                                };
                                self.roster[i].intervals.push(stay);
                                self.roster[i].active_since = None;
                                proof {
                                    assert(self.roster[i as int]@.intervals =~= track.intervals.push(
                                        stay@,
                                    ));
                                    assert(self.roster.deep_view() =~= departed(
                                        before,
                                        user_id@,
                                        ts,
                                    ));
                                }
                            },
                            None => {},
                        },
                        None => {},
                    }
                }
            },
            VrcLogEvent::AppStop => {
                self.close_session(ts);
            },
            VrcLogEvent::InvalidAppStop => {
                self.close_session(ts);
            },
            VrcLogEvent::AppStart => {},
            VrcLogEvent::SelfLeft => {},
        }
    }

    /// Takes the records of `logs` into the fold, in order.
    pub fn apply_all(&mut self, logs: &Vec<LogPayload>)
        ensures
            final(self)@ == fold_spec(old(self)@, logs.deep_view()),
    {
        let ghost start = self@;
        let mut i: usize = 0;
        proof {
            assert(logs.deep_view().subrange(0, 0) =~= Seq::empty());
        }
        while i < logs.len()
            invariant
                i <= logs.len(),
                self@ == fold_spec(start, logs.deep_view().subrange(0, i as int)),
            decreases logs.len() - i,
        {
            proof {
                let done = logs.deep_view().subrange(0, i as int);
                let next = logs.deep_view().subrange(0, i + 1);
                assert(next.drop_last() =~= done);
                assert(next.last() == logs[i as int]@);
            }
            self.apply(&logs[i]);
            i += 1;
        }
        proof {
            assert(logs.deep_view().subrange(0, i as int) =~= logs.deep_view());
        }
    }

    /// Whether a session is open.
    pub fn has_open_session(&self) -> (open: bool)
        ensures
            open == (self@.current is Some),
    {
        self.current_session.is_some()
    }

    /// Folds `logs` into the accumulator and returns every session, closing
    /// at `now` the one that is still open when the records end.
    pub fn process_until(self, logs: Vec<LogPayload>, now: i64) -> (sessions: Vec<SessionPayload>)
        ensures
            sessions.deep_view() == sessions_spec(self@, logs.deep_view(), now),
    {
        let mut builder = self;
        builder.apply_all(&logs);
        builder.close_session(now);
        builder.sessions
    }

    /// Folds `logs` into the accumulator and returns every session. Where
    /// a session is still open when the records end, the current time is
    /// read, once, and the session is closed at it. Where none is open the
    /// clock is not read, and the result is that of the records alone.
    pub fn process(self, logs: Vec<LogPayload>) -> (sessions: Vec<SessionPayload>)
        ensures
            fold_spec(self@, logs.deep_view()).current is None ==> sessions.deep_view()
                == fold_spec(self@, logs.deep_view()).sessions,
            exists|now: i64| sessions.deep_view() == sessions_spec(self@, logs.deep_view(), now),
    {
        let mut builder = self;
        builder.apply_all(&logs);
        if builder.has_open_session() {
            let now = utc_now_millis();
            builder.close_session(now);
            proof {
                assert(builder.sessions.deep_view() == sessions_spec(self@, logs.deep_view(), now));
            }
        } else {
            proof {
                assert(builder.sessions.deep_view() == sessions_spec(self@, logs.deep_view(), 0));
            }
        }
        builder.sessions
    }
}

/// The sessions that the rows of a store show for the range from `start`
/// to `end`, read at the instant `now`. The range is widened to the
/// session around it before the rows are folded.
pub fn get_sessions_at(
    rows: &Vec<LogPayload>,
    start: Option<&str>,
    end: Option<&str>,
    now: i64,
) -> (sessions: Vec<SessionPayload>)
    ensures
        sessions.deep_view() == sessions_spec(
            empty_builder(),
            expanded_records(rows.deep_view(), start.deep_view(), end.deep_view()),
            now,
        ),
{
    let logs = get_session_expanded_logs(rows, start, end);
    SessionBuilder::new().process_until(logs, now)
}

/// The sessions that the rows of a store show for the range from `start`
/// to `end`. The current time is read only where a session is still open
/// when the rows of the widened range end.
pub fn get_sessions(rows: &Vec<LogPayload>, start: Option<&str>, end: Option<&str>) -> (sessions:
    Vec<SessionPayload>)
    ensures
        ({
            let records = expanded_records(rows.deep_view(), start.deep_view(), end.deep_view());
            &&& fold_spec(empty_builder(), records).current is None ==> sessions.deep_view()
                == fold_spec(empty_builder(), records).sessions
            &&& exists|now: i64|
                sessions.deep_view() == sessions_spec(empty_builder(), records, now)
        }),
{
    let logs = get_session_expanded_logs(rows, start, end);
    SessionBuilder::new().process(logs)
}

/// Records without an instance join open no session: with none open
/// before them, they add nothing to the output, whatever stops they hold.
pub proof fn no_join_no_session(b: BuilderView, records: Seq<PayloadView>, now: i64)
    requires
        b.current is None,
        forall|i: int| 0 <= i < records.len() ==> !((#[trigger] records[i]).event is InstanceJoin),
    ensures
        fold_spec(b, records).current is None,
        fold_spec(b, records).sessions == b.sessions,
        sessions_spec(b, records, now) == b.sessions,
    decreases records.len(),
{
    if records.len() != 0 {
        let rest = records.drop_last();
        assert forall|i: int| 0 <= i < rest.len() implies !((#[trigger] rest[i]).event
            is InstanceJoin) by {
            assert(rest[i] == records[i]);
        }
        no_join_no_session(b, rest, now);
        assert(records.last() == records[records.len() - 1]);
    }
}

/// Closing with no session open changes nothing: a stop that no instance
/// join precedes yields no session.
pub proof fn close_without_session_is_idle(b: BuilderView, end_time: i64)
    requires
        b.current is None,
    ensures
        close_spec(b, end_time) == b,
{
}

/// A session that is open is closed exactly once: closing adds one session
/// at the end of the output and leaves none open, so that closing again
/// adds nothing.
pub proof fn open_session_is_closed_once(b: BuilderView, end_time: i64, again: i64)
    requires
        b.current is Some,
    ensures
        close_spec(b, end_time).sessions == b.sessions.push(
            closed_session(b.current->0, b.roster, b.me, end_time),
        ),
        close_spec(b, end_time).current is None,
        close_spec(close_spec(b, end_time), again) == close_spec(b, end_time),
{
}

/// A history that ends with a session open yields that session, closed at
/// the time of reading, as the last of its sessions, after those that the
/// records themselves closed.
pub proof fn unterminated_session_is_closed_at_now(
    b: BuilderView,
    records: Seq<PayloadView>,
    now: i64,
)
    requires
        fold_spec(b, records).current is Some,
    ensures
        sessions_spec(b, records, now).len() == fold_spec(b, records).sessions.len() + 1,
        sessions_spec(b, records, now).drop_last() == fold_spec(b, records).sessions,
        sessions_spec(b, records, now).last() == closed_session(
            fold_spec(b, records).current->0,
            fold_spec(b, records).roster,
            fold_spec(b, records).me,
            now,
        ),
{
    let end = fold_spec(b, records);
    let session = closed_session(end.current->0, end.roster, end.me, now);
    assert(end.sessions.push(session).drop_last() =~= end.sessions);
}

/// Where the self has no interval in the roster, a session runs from its
/// opening to the time at which it is closed.
pub proof fn bounds_without_self(
    roster: Seq<TrackView>,
    me: Option<MeView>,
    opened: i64,
    close_time: i64,
)
    requires
        forall|i: int|
            0 <= i < roster.len() ==> !is_self(me, #[trigger] roster[i].user_id)
                || closed_intervals(roster[i], close_time).len() == 0,
    ensures
        session_bounds(roster, me, opened, close_time) == (opened, close_time),
    decreases roster.len(),
{
    if roster.len() != 0 {
        let rest = roster.drop_last();
        assert(roster.last() == roster[roster.len() - 1]);
        assert forall|i: int| 0 <= i < rest.len() implies !is_self(me, #[trigger] rest[i].user_id)
            || closed_intervals(rest[i], close_time).len() == 0 by {
            assert(rest[i] == roster[i]);
        }
        bounds_without_self(rest, me, opened, close_time);
    }
}

/// The self is never among the listed participants.
pub proof fn listed_excludes_self(roster: Seq<TrackView>, me: Option<MeView>, close_time: i64)
    ensures
        listed(roster, me, close_time).len() <= roster.len(),
        forall|k: int|
            0 <= k < listed(roster, me, close_time).len() ==> exists|i: int|
                0 <= i < roster.len() && !is_self(me, roster[i].user_id) && #[trigger] listed(
                    roster,
                    me,
                    close_time,
                )[k].name == roster[i].name && listed(roster, me, close_time)[k].intervals
                    == closed_intervals(roster[i], close_time),
    decreases roster.len(),
{
    if roster.len() != 0 {
        let rest = roster.drop_last();
        listed_excludes_self(rest, me, close_time);
        let all = listed(roster, me, close_time);
        let before = listed(rest, me, close_time);
        assert forall|k: int| 0 <= k < all.len() implies exists|i: int|
            0 <= i < roster.len() && !is_self(me, roster[i].user_id) && #[trigger] all[k].name
                == roster[i].name && all[k].intervals == closed_intervals(roster[i], close_time) by {
            if k < before.len() {
                assert(all[k] == before[k]);
                let i = choose|i: int|
                    0 <= i < rest.len() && !is_self(me, rest[i].user_id) && before[k].name
                        == rest[i].name && before[k].intervals == closed_intervals(
                        rest[i],
                        close_time,
                    );
                assert(rest[i] == roster[i]);
            } else {
                let i = roster.len() - 1;
                assert(roster[i] == roster.last());
            }
        }
    }
}

/// A ranking lists its participants in order of falling total duration.
pub open spec fn is_ranking(players: Seq<PlayerIntervalView>) -> bool {
    forall|i: int, j: int|
        0 <= i <= j < players.len() ==> players[i].total_duration_ms
            >= players[j].total_duration_ms
}

proof fn rank_of_splits(ranking: Seq<PlayerIntervalView>, total: i64, from: int)
    requires
        0 <= from <= ranking.len(),
        is_ranking(ranking),
    ensures
        from <= rank_of(ranking, total, from) <= ranking.len(),
        forall|k: int|
            from <= k < rank_of(ranking, total, from) ==> ranking[k].total_duration_ms >= total,
        forall|k: int|
            rank_of(ranking, total, from) <= k < ranking.len() ==> ranking[k].total_duration_ms
                < total,
    decreases ranking.len() - from,
{
    if from < ranking.len() {
        if ranking[from].total_duration_ms < total {
        } else {
            rank_of_splits(ranking, total, from + 1);
        }
    }
}

/// Ranking orders the participants by falling total duration and neither
/// drops nor adds one.
pub proof fn ranked_is_sorted_permutation(players: Seq<PlayerIntervalView>)
    ensures
        is_ranking(ranked(players)),
        ranked(players).len() == players.len(),
        ranked(players).to_multiset() == players.to_multiset(),
    decreases players.len(),
{
    if players.len() == 0 {
        assert(players =~= ranked(players));
    } else {
        let rest = players.drop_last();
        let last = players.last();
        ranked_is_sorted_permutation(rest);
        let base = ranked(rest);
        rank_of_splits(base, last.total_duration_ms, 0);
        let at = rank_of(base, last.total_duration_ms, 0);
        let out = base.insert(at, last);
        assert(is_ranking(out)) by {
            assert forall|i: int, j: int| 0 <= i <= j < out.len() implies out[i].total_duration_ms
                >= out[j].total_duration_ms by {
                if i < at && j > at {
                    assert(out[i] == base[i]);
                    assert(out[j] == base[j - 1]);
                } else if i < at && j < at {
                    assert(out[i] == base[i]);
                    assert(out[j] == base[j]);
                } else if i > at {
                    assert(out[i] == base[i - 1]);
                    assert(out[j] == base[j - 1]);
                }
            }
        }
        vstd::seq_lib::to_multiset_insert(base, at, last);
        assert(players =~= rest.push(last));
        vstd::seq_lib::to_multiset_build(rest, last);
    }
}

/// The participants of `players` whose total duration is `total`, in order.
pub open spec fn with_total(players: Seq<PlayerIntervalView>, total: i64) -> Seq<
    PlayerIntervalView,
>
    decreases players.len(),
{
    if players.len() == 0 {
        Seq::empty()
    } else if players.last().total_duration_ms == total {
        with_total(players.drop_last(), total).push(players.last())
    } else {
        with_total(players.drop_last(), total)
    }
}

proof fn with_total_after_insert(
    players: Seq<PlayerIntervalView>,
    at: int,
    player: PlayerIntervalView,
    total: i64,
)
    requires
        0 <= at <= players.len(),
        forall|k: int|
            at <= k < players.len() ==> players[k].total_duration_ms
                < player.total_duration_ms,
    ensures
        with_total(players.insert(at, player), total) == if player.total_duration_ms == total {
            with_total(players, total).push(player)
        } else {
            with_total(players, total)
        },
    decreases players.len() - at,
{
    let out = players.insert(at, player);
    if at == players.len() {
        assert(out =~= players.push(player));
        assert(out.drop_last() =~= players);
    } else {
        let rest = players.drop_last();
        assert(out.drop_last() =~= rest.insert(at, player));
        assert(out.last() == players.last());
        assert(players.last() == players[players.len() - 1]);
        assert forall|k: int| at <= k < rest.len() implies rest[k].total_duration_ms
            < player.total_duration_ms by {
            assert(rest[k] == players[k]);
        }
        with_total_after_insert(rest, at, player, total);
    }
}

/// Ranking is stable: participants with the same total duration stand in
/// the ranking in the order in which they stand in `players`.
pub proof fn ranked_is_stable(players: Seq<PlayerIntervalView>, total: i64)
    ensures
        with_total(ranked(players), total) == with_total(players, total),
    decreases players.len(),
{
    if players.len() != 0 {
        let rest = players.drop_last();
        let last = players.last();
        ranked_is_stable(rest, total);
        ranked_is_sorted_permutation(rest);
        let base = ranked(rest);
        rank_of_splits(base, last.total_duration_ms, 0);
        with_total_after_insert(base, rank_of(base, last.total_duration_ms, 0), last, total);
    }
}

proof fn fold_of_one_more(b: BuilderView, records: Seq<PayloadView>, record: PayloadView)
    ensures
        fold_spec(b, records.push(record)) == step_spec(fold_spec(b, records), record),
{
    assert(records.push(record).drop_last() =~= records);
}

proof fn fold_of_four(
    b: BuilderView,
    r0: PayloadView,
    r1: PayloadView,
    r2: PayloadView,
    r3: PayloadView,
)
    ensures
        fold_spec(b, seq![r0, r1, r2, r3]) == step_spec(
            step_spec(step_spec(step_spec(b, r0), r1), r2),
            r3,
        ),
{
    let s0 = Seq::<PayloadView>::empty();
    let s1 = s0.push(r0);
    let s2 = s1.push(r1);
    let s3 = s2.push(r2);
    let s4 = s3.push(r3);
    assert(s4 =~= seq![r0, r1, r2, r3]);
    assert(fold_spec(b, s0) == b);
    fold_of_one_more(b, s0, r0);
    fold_of_one_more(b, s1, r1);
    fold_of_one_more(b, s2, r2);
    fold_of_one_more(b, s3, r3);
}

/// A stay that one participant joins and leaves, ended by a stop of the
/// application, yields one session. Where the participant is not the
/// self, the session runs from the instance join to the stop and lists the
/// participant with the one interval from join to leave. Where the
/// participant is the self, the session lists nobody and runs from the
/// start to the end of that interval, both read back from its timestamps.
pub proof fn one_visit_yields_one_session(
    me: Option<MeView>,
    join_instance: PayloadView,
    join: PayloadView,
    leave: PayloadView,
    stop: PayloadView,
    now: i64,
)
    requires
        join_instance.event is InstanceJoin,
        join.event is PlayerJoin,
        leave.event is PlayerLeft,
        join.event->PlayerJoin_user_id == leave.event->PlayerLeft_user_id,
        stop.event is AppStop,
    ensures
        ({
            let start = BuilderView { me, ..empty_builder() };
            let out = sessions_spec(start, seq![join_instance, join, leave, stop], now);
            let stay = IntervalView {
                start: timestr(timems(join.timestamp)),
                end: timestr(timems(leave.timestamp)),
            };
            &&& out.len() == 1
            &&& out[0].instance_id == join_instance.event->InstanceJoin_instance_id
            &&& out[0].world_name == "Unknown World"@
            &&& out[0].username == match me {
                Some(m) => Some(m.name),
                None => None,
            }
            &&& !is_self(me, join.event->PlayerJoin_user_id) ==> {
                &&& out[0].start_time == timestr(timems(join_instance.timestamp))
                &&& out[0].end_time == timestr(timems(stop.timestamp))
                &&& out[0].duration_ms == span_ms(
                    timems(join_instance.timestamp),
                    timems(stop.timestamp),
                )
                &&& out[0].players == seq![
                    PlayerIntervalView {
                        name: join.event->PlayerJoin_player_name,
                        intervals: seq![stay],
                        total_duration_ms: interval_ms(stay),
                    },
                ]
            }
            &&& is_self(me, join.event->PlayerJoin_user_id) ==> {
                &&& out[0].start_time == timestr(timems(stay.start))
                &&& out[0].end_time == timestr(timems(stay.end))
                &&& out[0].duration_ms == span_ms(timems(stay.start), timems(stay.end))
                &&& out[0].players.len() == 0
            }
        }),
{
    let start = BuilderView { me, ..empty_builder() };
    let user_id = join.event->PlayerJoin_user_id;
    let name = join.event->PlayerJoin_player_name;
    let t0 = timems(join_instance.timestamp);
    let t1 = timems(join.timestamp);
    let t2 = timems(leave.timestamp);
    let t3 = timems(stop.timestamp);
    let stay = IntervalView { start: timestr(t1), end: timestr(t2) };
    fold_of_four(start, join_instance, join, leave, stop);

    let b1 = step_spec(start, join_instance);
    assert(b1.roster == Seq::<TrackView>::empty());
    assert(b1.current is Some);
    assert(position(b1.roster, user_id, 0) is None);

    let b2 = step_spec(b1, join);
    let present = TrackView { user_id, name, active_since: Some(t1), intervals: Seq::empty() };
    assert(b2.roster == b1.roster.push(present));
    assert(b2.roster[0] == present);
    assert(position(b2.roster, user_id, 0) == Some(0int));

    let b3 = step_spec(b2, leave);
    let gone = TrackView {
        user_id,
        name,
        active_since: None,
        intervals: Seq::<IntervalView>::empty().push(stay),
    };
    assert(b3.roster == b2.roster.update(0, gone));
    assert(b3.roster =~= seq![gone]);
    assert(gone.intervals =~= seq![stay]);

    let b4 = step_spec(b3, stop);
    assert(b4 == close_spec(b3, t3));
    assert(b4.current is None);
    assert(b4.sessions == b3.sessions.push(closed_session(b3.current->0, b3.roster, me, t3)));
    assert(b3.sessions == Seq::<SessionView>::empty());
    let out = sessions_spec(start, seq![join_instance, join, leave, stop], now);
    assert(out == b4.sessions);
    assert(out.len() == 1);

    let roster = b3.roster;
    assert(roster.drop_last() =~= Seq::<TrackView>::empty());
    assert(roster.last() == gone);
    assert(closed_intervals(gone, t3) == gone.intervals);
    assert(listed(roster.drop_last(), me, t3) == Seq::<PlayerIntervalView>::empty());
    assert(session_bounds(roster.drop_last(), me, t0, t3) == (t0, t3));
    assert(gone.intervals.first() == stay);
    assert(gone.intervals.last() == stay);
    assert(gone.intervals.drop_last() =~= Seq::<IntervalView>::empty());
    assert(total_ms(gone.intervals.drop_last()) == 0);
    assert(total_ms(gone.intervals) == interval_ms(stay));
    if !is_self(me, user_id) {
        let player = PlayerIntervalView {
            name,
            intervals: gone.intervals,
            total_duration_ms: interval_ms(stay),
        };
        let players = listed(roster, me, t3);
        assert(players == Seq::<PlayerIntervalView>::empty().push(player));
        assert(players.drop_last() =~= Seq::<PlayerIntervalView>::empty());
        assert(players.last() == player);
        assert(ranked(players.drop_last()) == Seq::<PlayerIntervalView>::empty());
        assert(rank_of(Seq::<PlayerIntervalView>::empty(), player.total_duration_ms, 0) == 0);
        assert(ranked(players) =~= seq![player]);
    } else {
        assert(listed(roster, me, t3) == Seq::<PlayerIntervalView>::empty());
        assert(ranked(Seq::<PlayerIntervalView>::empty()).len() == 0);
    }
}

} // verus!
