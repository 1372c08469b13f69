//! The compiler: lowers a `Program` AST into a flat, time-ordered
//! `EventList`.
//!
//! Beats are exact rationals. Every step of compilation is mirrored by a
//! specification function over a ghost model of the compile context, and
//! `compile` returns exactly what the model prescribes; an arithmetic
//! overflow or a malformed duration (zero denominator) is a compile error,
//! exactly when the model says `None`.

use crate::ast::{ChordNote, DurationExpr, Expr, Program, Statement, TrackStatement};
use crate::rat::{lemma_rat_add_value, lemma_rat_mul_value, spec_rat_add, spec_rat_mul, Rat};
use crate::strutil::{rat_to_string, spec_rat_dec, spec_u64_dec, str_eq, u64_to_string};
use vstd::prelude::*;

verus! {

/// How the rendered audio ends relative to the event list (see the engine).
#[derive(Clone, Copy, Debug, PartialEq, Eq, Structural)]
pub enum EndMode {
    /// End at the latest gate-off (or the cursor, whichever is later).
    Gate,
    /// Also include the envelope release after the last gate-off.
    Release,
    /// Also include a fixed effects tail after the release.
    Tail,
}

/// What a single event does.
#[derive(Debug, PartialEq)]
pub enum EventKind {
    /// Play a note: `gate` is the audible duration in beats. The compiler
    /// stores velocities in `0 ..= 127`; the engine clamps larger values.
    Note { pitch: String, velocity: u64, gate: Rat },
    /// Start a sub-track that the compiler could not resolve.
    TrackStart {
        track_name: String,
        velocity: Option<u64>,
        play_duration: Option<Rat>,
        args: Vec<String>,
    },
    /// Set an opaque property, consumed by the engine.
    SetProperty { target: String, value: String },
}

/// A single scheduled event: `time` is in beats from the start.
#[derive(Debug, PartialEq)]
pub struct Event {
    pub time: Rat,
    pub kind: EventKind,
}

/// The compiled output: events sorted by time (stably, so equal-time
/// events keep their emission order) and the total length in beats.
#[derive(Debug, PartialEq)]
pub struct EventList {
    pub events: Vec<Event>,
    pub total_beats: Rat,
    pub end_mode: EndMode,
}

/// Ghost model of an event kind, over character sequences.
pub ghost enum EventKindModel {
    Note { pitch: Seq<char>, velocity: u64, gate: Rat },
    TrackStart {
        track_name: Seq<char>,
        velocity: Option<u64>,
        play_duration: Option<Rat>,
        args: Seq<Seq<char>>,
    },
    SetProperty { target: Seq<char>, value: Seq<char> },
}

/// Ghost model of an event.
pub ghost struct EventModel {
    pub time: Rat,
    pub kind: EventKindModel,
}

/// Ghost model of an event list.
pub ghost struct EventListModel {
    pub events: Seq<EventModel>,
    pub total_beats: Rat,
    pub end_mode: EndMode,
}

impl View for EventKind {
    type V = EventKindModel;

    open spec fn view(&self) -> EventKindModel {
        match self {
            EventKind::Note { pitch, velocity, gate } => EventKindModel::Note {
                pitch: pitch@,
                velocity: *velocity,
                gate: *gate,
            },
            EventKind::TrackStart { track_name, velocity, play_duration, args } => {
                EventKindModel::TrackStart {
                    track_name: track_name@,
                    velocity: *velocity,
                    play_duration: *play_duration,
                    args: args@.map_values(|a: String| a@),
                }
            },
            EventKind::SetProperty { target, value } => EventKindModel::SetProperty {
                target: target@,
                value: value@,
            },
        }
    }
}

impl View for Event {
    type V = EventModel;

    open spec fn view(&self) -> EventModel {
        EventModel { time: self.time, kind: self.kind@ }
    }
}

impl View for EventList {
    type V = EventListModel;

    open spec fn view(&self) -> EventListModel {
        EventListModel {
            events: self.events@.map_values(|e: Event| e@),
            total_beats: self.total_beats,
            end_mode: self.end_mode,
        }
    }
}

/// Ghost model of the compile context.
pub ghost struct CtxModel {
    pub default_duration: Rat,
    pub cursor: Rat,
    pub events: Seq<EventModel>,
}

impl CtxModel {
    /// The rationals the context carries are well formed.
    pub open spec fn wf(self) -> bool {
        self.default_duration.wf() && self.cursor.wf()
    }

    /// The context at the start of compilation: default duration one beat,
    /// cursor at zero, no events.
    pub open spec fn init() -> CtxModel {
        CtxModel {
            default_duration: Rat { num: 1, den: 1 },
            cursor: Rat { num: 0, den: 1 },
            events: Seq::empty(),
        }
    }
}

/// Compile context: mutable state threaded through compilation.
pub struct CompileCtx {
    /// Default step duration in beats.
    pub default_duration: Rat,
    /// Current cursor position in beats.
    pub cursor: Rat,
    /// Collected events, in emission order.
    pub events: Vec<Event>,
}

impl View for CompileCtx {
    type V = CtxModel;

    open spec fn view(&self) -> CtxModel {
        CtxModel {
            default_duration: self.default_duration,
            cursor: self.cursor,
            events: self.events@.map_values(|e: Event| e@),
        }
    }
}

impl CompileCtx {
    fn new() -> (r: CompileCtx)
        ensures
            r@ == CtxModel::init(),
    {
        let r = CompileCtx {
            default_duration: Rat { num: 1, den: 1 },
            cursor: Rat { num: 0, den: 1 },
            events: Vec::new(),
        };
        proof {
            assert(r@.events =~= CtxModel::init().events);
        }
        r
    }
}

/// The deepest chain of inlined track calls the compiler will follow; a
/// deeper (in particular, a recursive) chain is a compile error.
pub const MAX_TRACK_DEPTH: u64 = 64;

/// Resolve a duration expression against the current default duration.
/// `None` on a zero denominator, a malformed rational, or overflow.
pub open spec fn spec_duration_to_beats(dur: DurationExpr, default: Rat) -> Option<Rat> {
    match dur {
        DurationExpr::Beats(n) => if n.wf() {
            Some(n)
        } else {
            None
        },
        DurationExpr::Inverse(n) => if n >= 1 {
            Some(Rat { num: 1, den: n })
        } else {
            None
        },
        DurationExpr::Fraction(n, m) => if m >= 1 {
            Some(Rat { num: n, den: m })
        } else {
            None
        },
        DurationExpr::Dots(k) => spec_rat_mul(default, Rat { num: k, den: 1 }),
    }
}

/// An absent duration resolves to the default.
pub open spec fn spec_resolve_duration(dur: Option<DurationExpr>, default: Rat) -> Option<Rat> {
    match dur {
        Some(d) => spec_duration_to_beats(d, default),
        None => Some(default),
    }
}

/// Convert a `DurationExpr` to a beat count, mirroring
/// `spec_duration_to_beats`; a `Some` result is well formed.
pub fn duration_to_beats(dur: &DurationExpr, default: Rat) -> (r: Option<Rat>)
    requires
        default.wf(),
    ensures
        r == spec_duration_to_beats(*dur, default),
        r is Some ==> r->Some_0.wf(),
{
    match dur {
        DurationExpr::Beats(n) => if n.den >= 1 {
            Some(*n)
        } else {
            None
        },
        DurationExpr::Inverse(n) => if *n >= 1 {
            Some(Rat { num: 1, den: *n })
        } else {
            None
        },
        DurationExpr::Fraction(n, m) => if *m >= 1 {
            Some(Rat { num: *n, den: *m })
        } else {
            None
        },
        DurationExpr::Dots(k) => {
            let r = default.mul_checked(&Rat { num: *k, den: 1 });
            proof {
                if spec_rat_mul(default, Rat { num: k as u64, den: 1 }) is Some {
                    lemma_rat_mul_value(default, Rat { num: k as u64, den: 1 });
                }
            }
            r
        },
    }
}

/// The stringification of a non-duration expression, used when an
/// expression is passed through as an opaque property value or argument.
/// Durations are spelled `n`, `n/m` or `k.` (a dots count).
pub open spec fn spec_expr_to_string(e: Expr) -> Seq<char> {
    match e {
        Expr::Identifier(s) => s@,
        Expr::StringLit(s) => s@,
        Expr::Number(n) => spec_rat_dec(n),
        Expr::RegexLit(s) => s@,
        Expr::DurationLit(d) => match d {
            DurationExpr::Beats(n) => spec_rat_dec(n),
            DurationExpr::Inverse(n) => spec_rat_dec(Rat { num: 1, den: n }),
            DurationExpr::Fraction(n, m) => spec_rat_dec(Rat { num: n, den: m }),
            DurationExpr::Dots(k) => spec_u64_dec(k as nat) + seq!['.'],
        },
    }
}

/// Stringify an expression, mirroring `spec_expr_to_string`.
pub fn expr_to_string(expr: &Expr) -> (s: String)
    ensures
        s@ == spec_expr_to_string(*expr),
{
    match expr {
        Expr::Identifier(s) => s.clone(),
        Expr::StringLit(s) => s.clone(),
        Expr::Number(n) => rat_to_string(n),
        Expr::RegexLit(s) => s.clone(),
        Expr::DurationLit(d) => match d {
            DurationExpr::Beats(n) => rat_to_string(n),
            DurationExpr::Inverse(n) => rat_to_string(&Rat { num: 1, den: *n }),
            DurationExpr::Fraction(n, m) => rat_to_string(&Rat { num: *n, den: *m }),
            DurationExpr::Dots(k) => {
                let mut s = u64_to_string(*k);
                proof {
                    reveal_strlit(".");
                    assert("."@ =~= seq!['.']);
                }
                s.append(".");
                s
            },
        },
    }
}

/// The body of the first track definition with the given name, if any.
pub open spec fn spec_lookup_track(stmts: Seq<Statement>, name: Seq<char>) -> Option<
    Vec<TrackStatement>,
>
    decreases stmts.len(),
{
    if stmts.len() == 0 {
        None
    } else {
        match stmts[0] {
            Statement::TrackDef { name: n, body, .. } => if n@ == name {
                Some(body)
            } else {
                spec_lookup_track(stmts.drop_first(), name)
            },
            _ => spec_lookup_track(stmts.drop_first(), name),
        }
    }
}

/// The note events a chord emits, all at the same time: each note's gate is
/// the first present among the note's own audible duration, the chord-level
/// audible duration, and the default; chord notes play at velocity 100.
pub open spec fn spec_chord_events(
    time: Rat,
    default: Rat,
    chord_audible: Option<Rat>,
    notes: Seq<ChordNote>,
) -> Option<Seq<EventModel>>
    decreases notes.len(),
{
    if notes.len() == 0 {
        Some(Seq::empty())
    } else {
        let gate_opt = match notes[0].audible_duration {
            Some(d) => spec_duration_to_beats(d, default),
            None => match chord_audible {
                Some(g) => Some(g),
                None => Some(default),
            },
        };
        match gate_opt {
            Some(gate) => match spec_chord_events(time, default, chord_audible, notes.drop_first()) {
                Some(rest) => Some(
                    seq![
                        EventModel {
                            time,
                            kind: EventKindModel::Note {
                                pitch: notes[0].pitch@,
                                velocity: 100,
                                gate,
                            },
                        },
                    ] + rest,
                ),
                None => None,
            },
            None => None,
        }
    }
}

/// Apply an assignment: `track.duration` updates the default duration
/// (a duration literal resolves against the current default; a number is
/// taken as beats directly; other values are ignored); any other target
/// emits a `SetProperty` event at the cursor.
pub open spec fn spec_apply_assignment(ctx: CtxModel, target: Seq<char>, value: Expr) -> Option<
    CtxModel,
> {
    if target == "track.duration"@ {
        match value {
            Expr::DurationLit(d) => match spec_duration_to_beats(d, ctx.default_duration) {
                Some(nd) => Some(CtxModel { default_duration: nd, ..ctx }),
                None => None,
            },
            Expr::Number(n) => if n.wf() {
                Some(CtxModel { default_duration: n, ..ctx })
            } else {
                None
            },
            _ => Some(ctx),
        }
    } else {
        Some(
            CtxModel {
                events: ctx.events.push(
                    EventModel {
                        time: ctx.cursor,
                        kind: EventKindModel::SetProperty {
                            target,
                            value: spec_expr_to_string(value),
                        },
                    },
                ),
                ..ctx
            },
        )
    }
}

/// The `TrackStart` event emitted for a call to an unknown track, with the
/// play duration resolved and the arguments stringified.
pub open spec fn spec_unknown_call(
    ctx: CtxModel,
    name: Seq<char>,
    velocity: Option<u64>,
    play_duration: Option<DurationExpr>,
    args: Seq<Expr>,
    step: Option<DurationExpr>,
) -> Option<CtxModel> {
    let pd_opt = match play_duration {
        Some(pd) => match spec_duration_to_beats(pd, ctx.default_duration) {
            Some(v) => Some(Some(v)),
            None => None,
        },
        None => Some(None),
    };
    match pd_opt {
        Some(pd) => {
            let c1 = CtxModel {
                events: ctx.events.push(
                    EventModel {
                        time: ctx.cursor,
                        kind: EventKindModel::TrackStart {
                            track_name: name,
                            velocity,
                            play_duration: pd,
                            args: args.map_values(|e: Expr| spec_expr_to_string(e)),
                        },
                    },
                ),
                ..ctx
            };
            match step {
                Some(s) => match spec_duration_to_beats(s, c1.default_duration) {
                    Some(sb) => match spec_rat_add(c1.cursor, sb) {
                        Some(nc) => Some(CtxModel { cursor: nc, ..c1 }),
                        None => None,
                    },
                    None => None,
                },
                None => Some(c1),
            }
        },
        None => None,
    }
}

/// Compile one top-level statement.
pub open spec fn spec_compile_stmt(
    ctx: CtxModel,
    defs: Seq<Statement>,
    stmt: Statement,
    depth: nat,
) -> Option<CtxModel>
    decreases depth, stmt, 1int,
{
    match stmt {
        Statement::TrackDef { .. } => Some(ctx),
        Statement::ConstDecl { .. } => Some(ctx),
        Statement::Comment(_) => Some(ctx),
        Statement::Assignment { target, value } => spec_apply_assignment(ctx, target@, value),
        Statement::TrackCall { name, velocity, play_duration, args, step } => {
            match spec_lookup_track(defs, name@) {
                Some(body) => if depth == 0 {
                    None
                } else {
                    spec_known_call(
                        ctx,
                        defs,
                        body@,
                        play_duration,
                        step,
                        (depth - 1) as nat,
                    )
                },
                None => spec_unknown_call(ctx, name@, velocity, play_duration, args@, step),
            }
        },
    }
}

/// Compile a call to a known track: inline the body, then set the cursor
/// from the saved position by the play duration if present, restore the
/// default duration, and finally set the cursor from the saved position by
/// the step if present (the step wins as the final cursor position).
pub open spec fn spec_known_call(
    ctx: CtxModel,
    defs: Seq<Statement>,
    body: Seq<TrackStatement>,
    play_duration: Option<DurationExpr>,
    step: Option<DurationExpr>,
    depth: nat,
) -> Option<CtxModel>
    decreases depth, body, 1int,
{
    let saved_cursor = ctx.cursor;
    let saved_default = ctx.default_duration;
    match spec_compile_body(ctx, defs, body, depth) {
        Some(c1) => {
            let c2_opt = match play_duration {
                Some(pd) => match spec_duration_to_beats(pd, c1.default_duration) {
                    Some(md) => match spec_rat_add(saved_cursor, md) {
                        Some(nc) => Some(CtxModel { cursor: nc, ..c1 }),
                        None => None,
                    },
                    None => None,
                },
                None => Some(c1),
            };
            match c2_opt {
                Some(c2) => {
                    let c3 = CtxModel { default_duration: saved_default, ..c2 };
                    match step {
                        Some(s) => match spec_duration_to_beats(s, saved_default) {
                            Some(sb) => match spec_rat_add(saved_cursor, sb) {
                                Some(nc) => Some(CtxModel { cursor: nc, ..c3 }),
                                None => None,
                            },
                            None => None,
                        },
                        None => Some(c3),
                    }
                },
                None => None,
            }
        },
        None => None,
    }
}

/// Compile a sequence of track-body statements in order.
pub open spec fn spec_compile_body(
    ctx: CtxModel,
    defs: Seq<Statement>,
    body: Seq<TrackStatement>,
    depth: nat,
) -> Option<CtxModel>
    decreases depth, body, 0int,
{
    if body.len() == 0 {
        Some(ctx)
    } else {
        match spec_compile_tstmt(ctx, defs, body[0], depth) {
            Some(c) => spec_compile_body(c, defs, body.drop_first(), depth),
            None => None,
        }
    }
}

/// Compile one statement inside a track body.
pub open spec fn spec_compile_tstmt(
    ctx: CtxModel,
    defs: Seq<Statement>,
    stmt: TrackStatement,
    depth: nat,
) -> Option<CtxModel>
    decreases depth, stmt, 1int,
{
    match stmt {
        TrackStatement::NoteEvent { pitch, velocity, audible_duration, step_duration } => {
            let vel: u64 = match velocity {
                Some(v) => if v <= 127 {
                    v
                } else {
                    127
                },
                None => 100,
            };
            match spec_resolve_duration(audible_duration, ctx.default_duration) {
                Some(gate) => match spec_resolve_duration(step_duration, ctx.default_duration) {
                    Some(sb) => {
                        let c1 = CtxModel {
                            events: ctx.events.push(
                                EventModel {
                                    time: ctx.cursor,
                                    kind: EventKindModel::Note {
                                        pitch: pitch@,
                                        velocity: vel,
                                        gate,
                                    },
                                },
                            ),
                            ..ctx
                        };
                        match spec_rat_add(c1.cursor, sb) {
                            Some(nc) => Some(CtxModel { cursor: nc, ..c1 }),
                            None => None,
                        }
                    },
                    None => None,
                },
                None => None,
            }
        },
        TrackStatement::Chord { notes, audible_duration, step_duration } => {
            let ca_opt = match audible_duration {
                Some(d) => match spec_duration_to_beats(d, ctx.default_duration) {
                    Some(v) => Some(Some(v)),
                    None => None,
                },
                None => Some(None),
            };
            match ca_opt {
                Some(ca) => match spec_chord_events(ctx.cursor, ctx.default_duration, ca, notes@) {
                    Some(evs) => match spec_resolve_duration(step_duration, ctx.default_duration) {
                        Some(sb) => match spec_rat_add(ctx.cursor, sb) {
                            Some(nc) => Some(
                                CtxModel { cursor: nc, events: ctx.events + evs, ..ctx },
                            ),
                            None => None,
                        },
                        None => None,
                    },
                    None => None,
                },
                None => None,
            }
        },
        TrackStatement::Rest(d) => match spec_duration_to_beats(d, ctx.default_duration) {
            Some(b) => match spec_rat_add(ctx.cursor, b) {
                Some(nc) => Some(CtxModel { cursor: nc, ..ctx }),
                None => None,
            },
            None => None,
        },
        TrackStatement::Assignment { target, value } => spec_apply_assignment(
            ctx,
            target@,
            value,
        ),
        TrackStatement::ForLoop { body, .. } => spec_compile_body(ctx, defs, body@, depth),
        TrackStatement::TrackCall { name, velocity, play_duration, args, step } => {
            match spec_lookup_track(defs, name@) {
                Some(body) => if depth == 0 {
                    None
                } else {
                    spec_known_call(ctx, defs, body@, play_duration, step, (depth - 1) as nat)
                },
                None => spec_unknown_call(ctx, name@, velocity, play_duration, args@, step),
            }
        },
        TrackStatement::Comment(_) => Some(ctx),
    }
}

/// Compile a sequence of top-level statements in order.
pub open spec fn spec_compile_stmts(
    ctx: CtxModel,
    defs: Seq<Statement>,
    stmts: Seq<Statement>,
    depth: nat,
) -> Option<CtxModel>
    decreases depth, stmts, 0int,
{
    if stmts.len() == 0 {
        Some(ctx)
    } else {
        match spec_compile_stmt(ctx, defs, stmts[0], depth) {
            Some(c) => spec_compile_stmts(c, defs, stmts.drop_first(), depth),
            None => None,
        }
    }
}

proof fn lemma_map_push(v: Seq<Event>, e: Event)
    ensures
        v.push(e).map_values(|x: Event| x@) == v.map_values(|x: Event| x@).push(e@),
{
    assert(v.push(e).map_values(|x: Event| x@) =~= v.map_values(|x: Event| x@).push(e@));
}

fn err_overflow() -> (r: String)
{
    String::from_str("duration arithmetic failed: zero denominator or overflow")
}

fn err_depth() -> (r: String)
{
    String::from_str("track calls nested too deeply (recursive track call?)")
}

/// Find the body of the first track definition named `name`, mirroring
/// `spec_lookup_track`.
fn lookup_track<'a>(stmts: &'a Vec<Statement>, name: &str) -> (r: Option<&'a Vec<TrackStatement>>)
    ensures
        match r {
            Some(b) => spec_lookup_track(stmts@, name@) == Some(*b),
            None => spec_lookup_track(stmts@, name@) is None,
        },
{
    let n = stmts.len();
    proof {
        assert(stmts@.subrange(0, n as int) =~= stmts@);
    }
    let mut i: usize = 0;
    while i < n
        invariant
            n == stmts@.len(),
            i <= n,
            spec_lookup_track(stmts@, name@) == spec_lookup_track(
                stmts@.subrange(i as int, n as int),
                name@,
            ),
        decreases n - i,
    {
        let ghost rest = stmts@.subrange(i as int, n as int);
        proof {
            assert(rest[0] == stmts@[i as int]);
            assert(rest.drop_first() =~= stmts@.subrange(i as int + 1, n as int));
        }
        match &stmts[i] {
            Statement::TrackDef { name: tn, body, .. } => {
                if str_eq(tn.as_str(), name) {
                    return Some(body);
                }
            },
            _ => {},
        }
        i = i + 1;
    }
    proof {
        assert(stmts@.subrange(n as int, n as int) =~= Seq::<Statement>::empty());
    }
    None
}

/// Resolve an optional duration against the default, mirroring
/// `spec_resolve_duration`.
fn resolve_duration(dur: &Option<DurationExpr>, default: Rat) -> (r: Option<Rat>)
    requires
        default.wf(),
    ensures
        r == spec_resolve_duration(*dur, default),
        r is Some ==> r->Some_0.wf(),
{
    match dur {
        Some(d) => duration_to_beats(d, default),
        None => Some(default),
    }
}

/// Apply an assignment statement, mirroring `spec_apply_assignment`.
fn apply_assignment(ctx: &mut CompileCtx, target: &String, value: &Expr) -> (r: Result<
    (),
    String,
>)
    requires
        old(ctx)@.wf(),
    ensures
        match spec_apply_assignment(old(ctx)@, target@, *value) {
            Some(c) => r is Ok && final(ctx)@ == c && final(ctx)@.wf(),
            None => r is Err,
        },
{
    if str_eq(target.as_str(), "track.duration") {
        match value {
            Expr::DurationLit(d) => match duration_to_beats(d, ctx.default_duration) {
                Some(nd) => {
                    ctx.default_duration = nd;
                    Ok(())
                },
                None => Err(err_overflow()),
            },
            Expr::Number(n) => if n.den >= 1 {
                ctx.default_duration = *n;
                Ok(())
            } else {
                Err(err_overflow())
            },
            _ => Ok(()),
        }
    } else {
        let value_str = expr_to_string(value);
        let ghost pre = ctx@;
        let ev = Event {
            time: ctx.cursor,
            kind: EventKind::SetProperty { target: target.clone(), value: value_str },
        };
        proof {
            lemma_map_push(ctx.events@, ev);
        }
        ctx.events.push(ev);
        Ok(())
    }
}

/// Emit a `TrackStart` event for a call to an unknown track, mirroring
/// `spec_unknown_call`.
#[verifier::loop_isolation(false)]
fn emit_track_start(
    ctx: &mut CompileCtx,
    name: &String,
    velocity: Option<u64>,
    play_duration: &Option<DurationExpr>,
    args: &Vec<Expr>,
    step: &Option<DurationExpr>,
) -> (r: Result<(), String>)
    requires
        old(ctx)@.wf(),
    ensures
        match spec_unknown_call(old(ctx)@, name@, velocity, *play_duration, args@, *step) {
            Some(c) => r is Ok && final(ctx)@ == c && final(ctx)@.wf(),
            None => r is Err,
        },
{
    let pd: Option<Rat> = match play_duration {
        Some(d) => match duration_to_beats(d, ctx.default_duration) {
            Some(v) => Some(v),
            None => {
                return Err(err_overflow());
            },
        },
        None => None,
    };
    let n = args.len();
    let mut arg_strings: Vec<String> = Vec::new();
    proof {
        assert(arg_strings@.map_values(|a: String| a@) =~= args@.subrange(0, 0).map_values(
            |e: Expr| spec_expr_to_string(e),
        ));
    }
    let mut i: usize = 0;
    while i < n
        invariant
            n == args@.len(),
            i <= n,
            arg_strings@.map_values(|a: String| a@) == args@.subrange(0, i as int).map_values(
                |e: Expr| spec_expr_to_string(e),
            ),
        decreases n - i,
    {
        let ghost old_as = arg_strings@;
        let s = expr_to_string(&args[i]);
        arg_strings.push(s);
        proof {
            assert(arg_strings@.map_values(|a: String| a@) =~= old_as.map_values(
                |a: String| a@,
            ).push(s@));
            assert(args@.subrange(0, i as int + 1).map_values(|e: Expr| spec_expr_to_string(e))
                =~= args@.subrange(0, i as int).map_values(|e: Expr| spec_expr_to_string(e)).push(
                spec_expr_to_string(args@[i as int]),
            ));
        }
        i = i + 1;
    }
    proof {
        assert(args@.subrange(0, n as int) =~= args@);
    }
    let ev = Event {
        time: ctx.cursor,
        kind: EventKind::TrackStart {
            track_name: name.clone(),
            velocity,
            play_duration: pd,
            args: arg_strings,
        },
    };
    proof {
        lemma_map_push(ctx.events@, ev);
    }
    ctx.events.push(ev);
    match step {
        Some(s) => match duration_to_beats(s, ctx.default_duration) {
            Some(sb) => match ctx.cursor.add_checked(&sb) {
                Some(nc) => {
                    proof {
                        lemma_rat_add_value(ctx.cursor, sb);
                    }
                    ctx.cursor = nc;
                    Ok(())
                },
                None => Err(err_overflow()),
            },
            None => Err(err_overflow()),
        },
        None => Ok(()),
    }
}

/// Inline a known track body, then apply the play-duration cap, restore the
/// default duration and apply the step, mirroring `spec_known_call`.
#[verifier::loop_isolation(false)]
fn compile_known_call(
    ctx: &mut CompileCtx,
    defs: &Vec<Statement>,
    body: &Vec<TrackStatement>,
    play_duration: &Option<DurationExpr>,
    step: &Option<DurationExpr>,
    depth: u64,
) -> (r: Result<(), String>)
    requires
        old(ctx)@.wf(),
    ensures
        match spec_known_call(old(ctx)@, defs@, body@, *play_duration, *step, depth as nat) {
            Some(c) => r is Ok && final(ctx)@ == c && final(ctx)@.wf(),
            None => r is Err,
        },
    decreases depth, *body, 1int,
{
    let saved_cursor = ctx.cursor;
    let saved_default = ctx.default_duration;
    match compile_track_body(ctx, defs, body, depth) {
        Ok(()) => {},
        Err(e) => {
            return Err(e);
        },
    }
    if let Some(pd) = play_duration {
        match duration_to_beats(pd, ctx.default_duration) {
            Some(md) => match saved_cursor.add_checked(&md) {
                Some(nc) => {
                    proof {
                        lemma_rat_add_value(saved_cursor, md);
                    }
                    ctx.cursor = nc;
                },
                None => {
                    return Err(err_overflow());
                },
            },
            None => {
                return Err(err_overflow());
            },
        }
    }
    ctx.default_duration = saved_default;
    if let Some(s) = step {
        match duration_to_beats(s, ctx.default_duration) {
            Some(sb) => match saved_cursor.add_checked(&sb) {
                Some(nc) => {
                    proof {
                        lemma_rat_add_value(saved_cursor, sb);
                    }
                    ctx.cursor = nc;
                },
                None => {
                    return Err(err_overflow());
                },
            },
            None => {
                return Err(err_overflow());
            },
        }
    }
    Ok(())
}

/// Compile the statements of a track body in order, mirroring
/// `spec_compile_body`.
#[verifier::loop_isolation(false)]
fn compile_track_body(
    ctx: &mut CompileCtx,
    defs: &Vec<Statement>,
    body: &Vec<TrackStatement>,
    depth: u64,
) -> (r: Result<(), String>)
    requires
        old(ctx)@.wf(),
    ensures
        match spec_compile_body(old(ctx)@, defs@, body@, depth as nat) {
            Some(c) => r is Ok && final(ctx)@ == c && final(ctx)@.wf(),
            None => r is Err,
        },
    decreases depth, *body, 0int,
{
    let n = body.len();
    proof {
        assert(body@.subrange(0, n as int) =~= body@);
    }
    let mut i: usize = 0;
    while i < n
        invariant
            n == body@.len(),
            i <= n,
            ctx@.wf(),
            match spec_compile_body(ctx@, defs@, body@.subrange(i as int, n as int), depth as nat) {
                Some(c) => spec_compile_body(old(ctx)@, defs@, body@, depth as nat) == Some(c),
                None => spec_compile_body(old(ctx)@, defs@, body@, depth as nat) is None,
            },
        decreases n - i,
    {
        let ghost rest = body@.subrange(i as int, n as int);
        proof {
            assert(rest[0] == body@[i as int]);
            assert(rest.drop_first() =~= body@.subrange(i as int + 1, n as int));
            assert(decreases_to!(depth, *body, 0int => depth, body@[i as int], 1int));
        }
        match compile_track_statement(ctx, defs, &body[i], depth) {
            Ok(()) => {},
            Err(e) => {
                return Err(e);
            },
        }
        i = i + 1;
    }
    proof {
        assert(body@.subrange(n as int, n as int) =~= Seq::<TrackStatement>::empty());
    }
    Ok(())
}

/// Compile one statement inside a track body, mirroring
/// `spec_compile_tstmt`.
#[verifier::loop_isolation(false)]
fn compile_track_statement(
    ctx: &mut CompileCtx,
    defs: &Vec<Statement>,
    stmt: &TrackStatement,
    depth: u64,
) -> (r: Result<(), String>)
    requires
        old(ctx)@.wf(),
    ensures
        match spec_compile_tstmt(old(ctx)@, defs@, *stmt, depth as nat) {
            Some(c) => r is Ok && final(ctx)@ == c && final(ctx)@.wf(),
            None => r is Err,
        },
    decreases depth, *stmt, 1int,
{
    match stmt {
        TrackStatement::NoteEvent { pitch, velocity, audible_duration, step_duration } => {
            let vel: u64 = match velocity {
                Some(v) => if *v <= 127 {
                    *v
                } else {
                    127
                },
                None => 100,
            };
            let gate = match resolve_duration(audible_duration, ctx.default_duration) {
                Some(g) => g,
                None => {
                    return Err(err_overflow());
                },
            };
            let sb = match resolve_duration(step_duration, ctx.default_duration) {
                Some(s) => s,
                None => {
                    return Err(err_overflow());
                },
            };
            let ev = Event {
                time: ctx.cursor,
                kind: EventKind::Note { pitch: pitch.clone(), velocity: vel, gate },
            };
            proof {
                lemma_map_push(ctx.events@, ev);
            }
            ctx.events.push(ev);
            match ctx.cursor.add_checked(&sb) {
                Some(nc) => {
                    proof {
                        lemma_rat_add_value(ctx.cursor, sb);
                    }
                    ctx.cursor = nc;
                    Ok(())
                },
                None => Err(err_overflow()),
            }
        },
        TrackStatement::Chord { notes, audible_duration, step_duration } => {
            let ca: Option<Rat> = match audible_duration {
                Some(d) => match duration_to_beats(d, ctx.default_duration) {
                    Some(v) => Some(v),
                    None => {
                        return Err(err_overflow());
                    },
                },
                None => None,
            };
            let ghost t0 = ctx.cursor;
            let ghost d0 = ctx.default_duration;
            let ghost evs0 = ctx@.events;
            let n = notes.len();
            proof {
                assert(notes@.subrange(0, n as int) =~= notes@);
                if spec_chord_events(t0, d0, ca, notes@) is Some {
                    assert(evs0 + spec_chord_events(t0, d0, ca, notes@)->Some_0 =~= ctx@.events
                        + spec_chord_events(t0, d0, ca, notes@)->Some_0);
                }
            }
            let mut i: usize = 0;
            while i < n
                invariant
                    n == notes@.len(),
                    i <= n,
                    ctx.cursor == t0,
                    ctx.default_duration == d0,
                    ctx@.wf(),
                    d0.wf(),
                    ca is Some ==> ca->Some_0.wf(),
                    match spec_chord_events(t0, d0, ca, notes@.subrange(i as int, n as int)) {
                        Some(x) => spec_chord_events(t0, d0, ca, notes@) is Some
                            && evs0 + spec_chord_events(t0, d0, ca, notes@)->Some_0 == ctx@.events
                            + x,
                        None => spec_chord_events(t0, d0, ca, notes@) is None,
                    },
                decreases n - i,
            {
                let ghost rest = notes@.subrange(i as int, n as int);
                proof {
                    assert(rest[0] == notes@[i as int]);
                    assert(rest.drop_first() =~= notes@.subrange(i as int + 1, n as int));
                }
                let note = &notes[i];
                let gate = match &note.audible_duration {
                    Some(d) => match duration_to_beats(d, ctx.default_duration) {
                        Some(v) => v,
                        None => {
                            return Err(err_overflow());
                        },
                    },
                    None => match ca {
                        Some(g) => g,
                        None => ctx.default_duration,
                    },
                };
                let ghost pre_events = ctx@.events;
                let ev = Event {
                    time: ctx.cursor,
                    kind: EventKind::Note { pitch: note.pitch.clone(), velocity: 100, gate },
                };
                proof {
                    lemma_map_push(ctx.events@, ev);
                }
                ctx.events.push(ev);
                proof {
                    let next = notes@.subrange(i as int + 1, n as int);
                    if spec_chord_events(t0, d0, ca, next) is Some {
                        let x1 = spec_chord_events(t0, d0, ca, next)->Some_0;
                        assert(spec_chord_events(t0, d0, ca, rest) == Some(seq![ev@] + x1));
                        assert(pre_events + (seq![ev@] + x1) =~= ctx@.events + x1);
                    }
                }
                i = i + 1;
            }
            proof {
                assert(notes@.subrange(n as int, n as int) =~= Seq::<ChordNote>::empty());
            }
            let sb = match resolve_duration(step_duration, ctx.default_duration) {
                Some(s) => s,
                None => {
                    return Err(err_overflow());
                },
            };
            match ctx.cursor.add_checked(&sb) {
                Some(nc) => {
                    proof {
                        lemma_rat_add_value(ctx.cursor, sb);
                        let c = spec_compile_tstmt(old(ctx)@, defs@, *stmt, depth as nat)->Some_0;
                        assert(ctx@.events =~= c.events);
                    }
                    ctx.cursor = nc;
                    Ok(())
                },
                None => Err(err_overflow()),
            }
        },
        TrackStatement::Rest(d) => {
            match duration_to_beats(d, ctx.default_duration) {
                Some(b) => match ctx.cursor.add_checked(&b) {
                    Some(nc) => {
                        proof {
                            lemma_rat_add_value(ctx.cursor, b);
                        }
                        ctx.cursor = nc;
                        Ok(())
                    },
                    None => Err(err_overflow()),
                },
                None => Err(err_overflow()),
            }
        },
        TrackStatement::Assignment { target, value } => apply_assignment(ctx, target, value),
        TrackStatement::ForLoop { body, .. } => compile_track_body(ctx, defs, body, depth),
        TrackStatement::TrackCall { name, velocity, play_duration, args, step } => {
            match lookup_track(defs, name.as_str()) {
                Some(body) => {
                    if depth == 0 {
                        Err(err_depth())
                    } else {
                        compile_known_call(ctx, defs, body, play_duration, step, depth - 1)
                    }
                },
                None => emit_track_start(ctx, name, *velocity, play_duration, args, step),
            }
        },
        TrackStatement::Comment(_) => Ok(()),
    }
}

/// Compile one top-level statement, mirroring `spec_compile_stmt`.
fn compile_statement(
    ctx: &mut CompileCtx,
    defs: &Vec<Statement>,
    stmt: &Statement,
    depth: u64,
) -> (r: Result<(), String>)
    requires
        old(ctx)@.wf(),
    ensures
        match spec_compile_stmt(old(ctx)@, defs@, *stmt, depth as nat) {
            Some(c) => r is Ok && final(ctx)@ == c && final(ctx)@.wf(),
            None => r is Err,
        },
    decreases depth, *stmt, 1int,
{
    match stmt {
        Statement::TrackDef { .. } => Ok(()),
        Statement::ConstDecl { .. } => Ok(()),
        Statement::Comment(_) => Ok(()),
        Statement::Assignment { target, value } => apply_assignment(ctx, target, value),
        Statement::TrackCall { name, velocity, play_duration, args, step } => {
            match lookup_track(defs, name.as_str()) {
                Some(body) => {
                    if depth == 0 {
                        Err(err_depth())
                    } else {
                        compile_known_call(ctx, defs, body, play_duration, step, depth - 1)
                    }
                },
                None => emit_track_start(ctx, name, *velocity, play_duration, args, step),
            }
        },
    }
}

/// Insert `e` into `s` after every element whose time is `<=` `e.time`:
/// the insertion step of a stable sort by time.
pub open spec fn spec_insert_sorted(s: Seq<EventModel>, e: EventModel) -> Seq<EventModel>
    decreases s.len(),
{
    if s.len() == 0 {
        seq![e]
    } else if s.last().time.le(e.time) {
        s.push(e)
    } else {
        spec_insert_sorted(s.drop_last(), e).push(s.last())
    }
}

/// Stable sort by time: insert the events one by one, in emission order.
pub open spec fn spec_stable_sort(s: Seq<EventModel>) -> Seq<EventModel>
    decreases s.len(),
{
    if s.len() == 0 {
        Seq::empty()
    } else {
        spec_insert_sorted(spec_stable_sort(s.drop_last()), s.last())
    }
}

/// Adjacent events are in non-decreasing time order.
pub open spec fn spec_time_sorted(s: Seq<EventModel>) -> bool {
    forall|i: int| 0 <= i < s.len() - 1 ==> #[trigger] s[i].time.le(s[i + 1].time)
}

/// `spec_insert_sorted(s, e)` is `s` with `e` placed at position `k`, where
/// `k` is the end of the prefix of elements whose time is `<=` `e.time`.
proof fn lemma_insert_sorted_shape(s: Seq<EventModel>, e: EventModel, k: int)
    requires
        0 <= k <= s.len(),
        forall|j: int| k <= j < s.len() ==> !(#[trigger] s[j].time.le(e.time)),
        k > 0 ==> s[k - 1].time.le(e.time),
    ensures
        spec_insert_sorted(s, e) == s.subrange(0, k) + seq![e] + s.subrange(k, s.len() as int),
    decreases s.len(),
{
    if s.len() == 0 {
        assert(spec_insert_sorted(s, e) =~= s.subrange(0, k) + seq![e] + s.subrange(
            k,
            s.len() as int,
        ));
    } else if k == s.len() {
        assert(spec_insert_sorted(s, e) =~= s.subrange(0, k) + seq![e] + s.subrange(
            k,
            s.len() as int,
        ));
    } else {
        assert(!s[s.len() - 1].time.le(e.time));
        let dl = s.drop_last();
        assert(forall|j: int| k <= j < dl.len() ==> !(#[trigger] dl[j].time.le(e.time)));
        lemma_insert_sorted_shape(dl, e, k);
        assert(spec_insert_sorted(s, e) =~= s.subrange(0, k) + seq![e] + s.subrange(
            k,
            s.len() as int,
        ));
    }
}

/// Inserting preserves sortedness, the length grows by one, and every
/// element of the result is `e` or an element of `s`.
proof fn lemma_insert_sorted_props(s: Seq<EventModel>, e: EventModel)
    ensures
        spec_insert_sorted(s, e).len() == s.len() + 1,
        spec_time_sorted(s) ==> spec_time_sorted(spec_insert_sorted(s, e)),
        forall|i: int|
            0 <= i < s.len() + 1 ==> (#[trigger] spec_insert_sorted(s, e)[i] == e || exists|j: int|
                0 <= j < s.len() && spec_insert_sorted(s, e)[i] == s[j]),
    decreases s.len(),
{
    let r = spec_insert_sorted(s, e);
    if s.len() == 0 {
    } else if s.last().time.le(e.time) {
        assert(forall|i: int|
            0 <= i < s.len() ==> r[i] == s[i] && (exists|j: int| 0 <= j < s.len() && r[i] == s[j]));
    } else {
        let dl = s.drop_last();
        lemma_insert_sorted_props(dl, e);
        let r1 = spec_insert_sorted(dl, e);
        assert(r == r1.push(s.last()));
        if spec_time_sorted(s) {
            assert(forall|i: int| 0 <= i < dl.len() - 1 ==> #[trigger] dl[i].time.le(dl[i + 1].time));
            assert(spec_time_sorted(r1));
            // the last element of r1 is e or the last element of dl; either
            // way its time is <= s.last().time
            lemma_insert_sorted_last(dl, e);
            assert(e.time.le(s.last().time));
            if r1.last() == e {
                assert(r1.last().time.le(s.last().time));
            } else {
                assert(dl.len() > 0 && r1.last() == dl.last());
                assert(s.len() >= 2);
                assert(dl.last() == s[s.len() - 2]);
                assert(s[s.len() - 2].time.le(s[(s.len() - 2) + 1].time));
                assert(r1.last().time.le(s.last().time));
            }
            assert(forall|i: int| 0 <= i < r.len() - 1 ==> #[trigger] r[i].time.le(r[i + 1].time))
                by {
                assert forall|i: int| 0 <= i < r.len() - 1 implies #[trigger] r[i].time.le(
                    r[i + 1].time,
                ) by {
                    if i < r1.len() - 1 {
                        assert(r[i] == r1[i] && r[i + 1] == r1[i + 1]);
                        assert(r1[i].time.le(r1[i + 1].time));
                    } else {
                        assert(r[i] == r1.last() && r[i + 1] == s.last());
                    }
                }
            }
            assert(spec_time_sorted(r));
        }
        assert(forall|i: int|
            0 <= i < r.len() ==> (#[trigger] r[i] == e || exists|j: int|
                0 <= j < s.len() && r[i] == s[j]));
    }
}

/// The last element of an insertion is `e` or the last element of `s`.
proof fn lemma_insert_sorted_last(s: Seq<EventModel>, e: EventModel)
    ensures
        spec_insert_sorted(s, e).len() == s.len() + 1,
        spec_insert_sorted(s, e).last() == e || (s.len() > 0 && spec_insert_sorted(s, e).last()
            == s.last()),
    decreases s.len(),
{
    if s.len() == 0 {
    } else if s.last().time.le(e.time) {
    } else {
        lemma_insert_sorted_last(s.drop_last(), e);
    }
}

/// A stable sort is sorted, and every element of the result is an element
/// of the input.
pub proof fn lemma_stable_sort_props(s: Seq<EventModel>)
    ensures
        spec_stable_sort(s).len() == s.len(),
        spec_time_sorted(spec_stable_sort(s)),
        forall|i: int|
            0 <= i < s.len() ==> exists|j: int|
                0 <= j < s.len() && #[trigger] spec_stable_sort(s)[i] == s[j],
    decreases s.len(),
{
    if s.len() == 0 {
    } else {
        let dl = s.drop_last();
        lemma_stable_sort_props(dl);
        lemma_insert_sorted_props(spec_stable_sort(dl), s.last());
        assert(forall|i: int|
            0 <= i < dl.len() ==> (exists|j: int| 0 <= j < dl.len() && #[trigger] dl[i] == s[j]));
        assert(forall|i: int|
            0 <= i < s.len() ==> exists|j: int|
                0 <= j < s.len() && #[trigger] spec_stable_sort(s)[i] == s[j]) by {
            let r = spec_stable_sort(s);
            let r1 = spec_stable_sort(dl);
            assert forall|i: int| 0 <= i < s.len() implies exists|j: int|
                0 <= j < s.len() && #[trigger] r[i] == s[j] by {
                if r[i] == s.last() {
                    assert(r[i] == s[s.len() - 1]);
                } else {
                    let j1 = choose|j: int| 0 <= j < r1.len() && r[i] == r1[j];
                    let j2 = choose|j: int| 0 <= j < dl.len() && r1[j1] == dl[j];
                    assert(dl[j2] == s[j2]);
                }
            }
        }
    }
}

/// Sort events stably by time, mirroring `spec_stable_sort` on the models.
fn sort_events(events: Vec<Event>) -> (out: Vec<Event>)
    ensures
        out@.map_values(|e: Event| e@) == spec_stable_sort(events@.map_values(|e: Event| e@)),
{
    let ghost orig = events@.map_values(|e: Event| e@);
    let mut input = events;
    let mut out: Vec<Event> = Vec::new();
    let ghost mut done: int = 0;
    proof {
        assert(orig.subrange(0, 0) =~= Seq::<EventModel>::empty());
        assert(out@.map_values(|e: Event| e@) =~= spec_stable_sort(orig.subrange(0, 0)));
    }
    while input.len() > 0
        invariant
            0 <= done <= orig.len(),
            input@.map_values(|e: Event| e@) == orig.subrange(done, orig.len() as int),
            out@.map_values(|e: Event| e@) == spec_stable_sort(orig.subrange(0, done)),
        decreases input@.len(),
    {
        let ghost pre_in = input@.map_values(|e: Event| e@);
        let ghost sorted_pre = out@.map_values(|e: Event| e@);
        let ghost input_pre = input@;
        let e = input.remove(0);
        proof {
            assert(e == input_pre[0]);
            assert(pre_in[0] == input_pre[0]@);
            assert(input@.map_values(|ev: Event| ev@) =~= pre_in.drop_first());
            assert(pre_in.drop_first() =~= orig.subrange(done + 1, orig.len() as int));
            assert(e@ == orig[done]);
        }
        // scan from the right for the insertion point: after every element
        // whose time is <= e.time
        let mut k = out.len();
        while k > 0 && !(out[k - 1].time.le_value(&e.time))
            invariant
                k <= out@.len(),
                forall|j: int| k <= j < out@.len() ==> !(#[trigger] out@[j].time.le(e@.time)),
            decreases k,
        {
            k = k - 1;
        }
        proof {
            assert(forall|j: int| 0 <= j < out@.len() ==> #[trigger] sorted_pre[j].time
                == out@[j].time);
            if k > 0 {
                assert(sorted_pre[k - 1].time.le(e@.time));
            }
        }
        let ghost kk = k as int;
        out.insert(k, e);
        proof {
            lemma_insert_sorted_shape(sorted_pre, e@, kk);
            assert(out@.map_values(|ev: Event| ev@) =~= sorted_pre.subrange(0, kk) + seq![e@]
                + sorted_pre.subrange(kk, sorted_pre.len() as int));
            assert(orig.subrange(0, done + 1).drop_last() =~= orig.subrange(0, done));
            assert(orig.subrange(0, done + 1).last() == orig[done]);
            done = done + 1;
        }
    }
    proof {
        assert(orig.subrange(0, orig.len() as int) =~= orig);
    }
    out
}

/// The step of end-mode extraction: a `SetProperty` on `track.endMode`
/// whose value spells a mode selects it; anything else keeps the current
/// mode.
pub open spec fn spec_end_mode_step(cur: EndMode, e: EventModel) -> EndMode {
    match e.kind {
        EventKindModel::SetProperty { target, value } => if target == "track.endMode"@ {
            if value == "Release"@ {
                EndMode::Release
            } else if value == "Tail"@ {
                EndMode::Tail
            } else if value == "Gate"@ {
                EndMode::Gate
            } else {
                cur
            }
        } else {
            cur
        },
        _ => cur,
    }
}

/// Fold the end mode over the events in order; the last recognized
/// assignment wins.
pub open spec fn spec_end_mode_fold(s: Seq<EventModel>, cur: EndMode) -> EndMode
    decreases s.len(),
{
    if s.len() == 0 {
        cur
    } else {
        spec_end_mode_fold(s.drop_first(), spec_end_mode_step(cur, s[0]))
    }
}

/// The end mode of an event list: folded over the events, starting from
/// `Gate`.
pub open spec fn spec_end_mode(s: Seq<EventModel>) -> EndMode {
    spec_end_mode_fold(s, EndMode::Gate)
}

/// Extract the end mode from the events, mirroring `spec_end_mode`.
#[verifier::loop_isolation(false)]
fn extract_end_mode(events: &Vec<Event>) -> (r: EndMode)
    ensures
        r == spec_end_mode(events@.map_values(|e: Event| e@)),
{
    let ghost evs = events@.map_values(|e: Event| e@);
    let n = events.len();
    let mut mode = EndMode::Gate;
    proof {
        assert(evs.subrange(0, n as int) =~= evs);
    }
    let mut i: usize = 0;
    while i < n
        invariant
            n == events@.len(),
            i <= n,
            spec_end_mode(evs) == spec_end_mode_fold(evs.subrange(i as int, n as int), mode),
        decreases n - i,
    {
        let ghost rest = evs.subrange(i as int, n as int);
        proof {
            assert(rest[0] == evs[i as int]);
            assert(rest.drop_first() =~= evs.subrange(i as int + 1, n as int));
        }
        match &events[i].kind {
            EventKind::SetProperty { target, value } => {
                if str_eq(target.as_str(), "track.endMode") {
                    if str_eq(value.as_str(), "Release") {
                        mode = EndMode::Release;
                    } else if str_eq(value.as_str(), "Tail") {
                        mode = EndMode::Tail;
                    } else if str_eq(value.as_str(), "Gate") {
                        mode = EndMode::Gate;
                    }
                }
            },
            _ => {},
        }
        i = i + 1;
    }
    mode
}

/// The full compilation of a program: run the top-level statements from the
/// initial context, sort the events stably by time, and read the end mode
/// off the sorted events; `total_beats` is the final cursor position.
pub open spec fn spec_compile(p: Program) -> Option<EventListModel> {
    match spec_compile_stmts(
        CtxModel::init(),
        p.statements@,
        p.statements@,
        MAX_TRACK_DEPTH as nat,
    ) {
        Some(c) => {
            let sorted = spec_stable_sort(c.events);
            Some(
                EventListModel {
                    events: sorted,
                    total_beats: c.cursor,
                    end_mode: spec_end_mode(sorted),
                },
            )
        },
        None => None,
    }
}

/// Compile a parsed `Program` into a flat `EventList`.
///
/// Succeeds exactly when `spec_compile` yields a model, and then returns
/// exactly that model: events stably sorted by time, `total_beats` the
/// final cursor. Fails (with a single message) exactly on malformed
/// durations, arithmetic overflow, or a track-call chain deeper than
/// `MAX_TRACK_DEPTH`.
#[verifier::loop_isolation(false)]
pub fn compile(program: &Program) -> (r: Result<EventList, String>)
    ensures
        (r is Ok) == (spec_compile(*program) is Some),
        r is Ok ==> r->Ok_0@ == spec_compile(*program)->Some_0,
        r is Ok ==> spec_time_sorted(r->Ok_0@.events),
{
    let mut ctx = CompileCtx::new();
    let stmts = &program.statements;
    let n = stmts.len();
    proof {
        assert(stmts@.subrange(0, n as int) =~= stmts@);
    }
    let mut i: usize = 0;
    while i < n
        invariant
            n == stmts@.len(),
            i <= n,
            ctx@.wf(),
            match spec_compile_stmts(
                ctx@,
                stmts@,
                stmts@.subrange(i as int, n as int),
                MAX_TRACK_DEPTH as nat,
            ) {
                Some(c) => spec_compile_stmts(
                    CtxModel::init(),
                    stmts@,
                    stmts@,
                    MAX_TRACK_DEPTH as nat,
                ) == Some(c),
                None => spec_compile_stmts(
                    CtxModel::init(),
                    stmts@,
                    stmts@,
                    MAX_TRACK_DEPTH as nat,
                ) is None,
            },
        decreases n - i,
    {
        let ghost rest = stmts@.subrange(i as int, n as int);
        proof {
            assert(rest[0] == stmts@[i as int]);
            assert(rest.drop_first() =~= stmts@.subrange(i as int + 1, n as int));
        }
        match compile_statement(&mut ctx, stmts, &stmts[i], MAX_TRACK_DEPTH) {
            Ok(()) => {},
            Err(e) => {
                return Err(e);
            },
        }
        i = i + 1;
    }
    proof {
        assert(stmts@.subrange(n as int, n as int) =~= Seq::<Statement>::empty());
        lemma_stable_sort_props(ctx@.events);
    }
    let total_beats = ctx.cursor;
    let sorted = sort_events(ctx.events);
    let end_mode = extract_end_mode(&sorted);
    let el = EventList { events: sorted, total_beats, end_mode };
    Ok(el)
}

/// A single event is well formed: its time is a valid rational; a note's
/// velocity lies in `0 ..= 127` and its gate is a valid (hence nonnegative)
/// rational; a deferred track start's play duration, if any, is valid.
pub open spec fn event_ok(e: EventModel) -> bool {
    &&& e.time.wf()
    &&& match e.kind {
        EventKindModel::Note { velocity, gate, .. } => velocity <= 127 && gate.wf(),
        EventKindModel::TrackStart { play_duration, .. } => match play_duration {
            Some(p) => p.wf(),
            None => true,
        },
        EventKindModel::SetProperty { .. } => true,
    }
}

pub open spec fn events_ok(s: Seq<EventModel>) -> bool {
    forall|i: int| 0 <= i < s.len() ==> event_ok(#[trigger] s[i])
}

/// A resolved duration is a well-formed rational.
proof fn lemma_duration_wf(d: DurationExpr, default: Rat)
    requires
        default.wf(),
    ensures
        spec_duration_to_beats(d, default) is Some ==> spec_duration_to_beats(d, default)
            ->Some_0.wf(),
{
    match d {
        DurationExpr::Dots(k) => {
            if spec_rat_mul(default, Rat { num: k, den: 1 }) is Some {
                lemma_rat_mul_value(default, Rat { num: k, den: 1 });
            }
        },
        _ => {},
    }
}

/// A successful rational addition of well-formed terms is well formed.
proof fn lemma_add_wf(a: Rat, b: Rat)
    requires
        a.wf(),
        b.wf(),
    ensures
        spec_rat_add(a, b) is Some ==> spec_rat_add(a, b)->Some_0.wf(),
{
    if spec_rat_add(a, b) is Some {
        lemma_rat_add_value(a, b);
    }
}

/// All events a chord emits are well formed.
proof fn lemma_chord_ok(time: Rat, default: Rat, ca: Option<Rat>, notes: Seq<ChordNote>)
    requires
        time.wf(),
        default.wf(),
        ca is Some ==> ca->Some_0.wf(),
    ensures
        spec_chord_events(time, default, ca, notes) is Some ==> events_ok(
            spec_chord_events(time, default, ca, notes)->Some_0,
        ),
    decreases notes.len(),
{
    if notes.len() != 0 {
        lemma_chord_ok(time, default, ca, notes.drop_first());
        match notes[0].audible_duration {
            Some(d) => {
                lemma_duration_wf(d, default);
            },
            None => {},
        }
    }
}

proof fn lemma_assignment_ok(ctx: CtxModel, target: Seq<char>, value: Expr)
    requires
        ctx.wf(),
        events_ok(ctx.events),
    ensures
        spec_apply_assignment(ctx, target, value) is Some ==> {
            let c = spec_apply_assignment(ctx, target, value)->Some_0;
            c.wf() && events_ok(c.events)
        },
{
    if target == "track.duration"@ {
        match value {
            Expr::DurationLit(d) => {
                lemma_duration_wf(d, ctx.default_duration);
            },
            _ => {},
        }
    }
}

proof fn lemma_unknown_call_ok(
    ctx: CtxModel,
    name: Seq<char>,
    velocity: Option<u64>,
    play_duration: Option<DurationExpr>,
    args: Seq<Expr>,
    step: Option<DurationExpr>,
)
    requires
        ctx.wf(),
        events_ok(ctx.events),
    ensures
        spec_unknown_call(ctx, name, velocity, play_duration, args, step) is Some ==> {
            let c = spec_unknown_call(ctx, name, velocity, play_duration, args, step)->Some_0;
            c.wf() && events_ok(c.events)
        },
{
    match play_duration {
        Some(pd) => {
            lemma_duration_wf(pd, ctx.default_duration);
        },
        None => {},
    }
    match step {
        Some(st) => {
            lemma_duration_wf(st, ctx.default_duration);
            if spec_duration_to_beats(st, ctx.default_duration) is Some {
                lemma_add_wf(ctx.cursor, spec_duration_to_beats(st, ctx.default_duration)->Some_0);
            }
        },
        None => {},
    }
}

/// Compiling one top-level statement preserves well-formed state and emits
/// only well-formed events.
proof fn lemma_stmt_ok(ctx: CtxModel, defs: Seq<Statement>, stmt: Statement, depth: nat)
    requires
        ctx.wf(),
        events_ok(ctx.events),
    ensures
        spec_compile_stmt(ctx, defs, stmt, depth) is Some ==> {
            let c = spec_compile_stmt(ctx, defs, stmt, depth)->Some_0;
            c.wf() && events_ok(c.events)
        },
    decreases depth, stmt, 1int,
{
    match stmt {
        Statement::Assignment { target, value } => {
            lemma_assignment_ok(ctx, target@, value);
        },
        Statement::TrackCall { name, velocity, play_duration, args, step } => {
            match spec_lookup_track(defs, name@) {
                Some(body) => {
                    if depth > 0 {
                        lemma_known_call_ok(
                            ctx,
                            defs,
                            body@,
                            play_duration,
                            step,
                            (depth - 1) as nat,
                        );
                    }
                },
                None => {
                    lemma_unknown_call_ok(ctx, name@, velocity, play_duration, args@, step);
                },
            }
        },
        _ => {},
    }
}

proof fn lemma_known_call_ok(
    ctx: CtxModel,
    defs: Seq<Statement>,
    body: Seq<TrackStatement>,
    play_duration: Option<DurationExpr>,
    step: Option<DurationExpr>,
    depth: nat,
)
    requires
        ctx.wf(),
        events_ok(ctx.events),
    ensures
        spec_known_call(ctx, defs, body, play_duration, step, depth) is Some ==> {
            let c = spec_known_call(ctx, defs, body, play_duration, step, depth)->Some_0;
            c.wf() && events_ok(c.events)
        },
    decreases depth, body, 1int,
{
    lemma_body_ok(ctx, defs, body, depth);
    if spec_compile_body(ctx, defs, body, depth) is Some {
        let c1 = spec_compile_body(ctx, defs, body, depth)->Some_0;
        match play_duration {
            Some(pd) => {
                lemma_duration_wf(pd, c1.default_duration);
                if spec_duration_to_beats(pd, c1.default_duration) is Some {
                    lemma_add_wf(
                        ctx.cursor,
                        spec_duration_to_beats(pd, c1.default_duration)->Some_0,
                    );
                }
            },
            None => {},
        }
        match step {
            Some(st) => {
                lemma_duration_wf(st, ctx.default_duration);
                if spec_duration_to_beats(st, ctx.default_duration) is Some {
                    lemma_add_wf(
                        ctx.cursor,
                        spec_duration_to_beats(st, ctx.default_duration)->Some_0,
                    );
                }
            },
            None => {},
        }
    }
}

proof fn lemma_body_ok(ctx: CtxModel, defs: Seq<Statement>, body: Seq<TrackStatement>, depth: nat)
    requires
        ctx.wf(),
        events_ok(ctx.events),
    ensures
        spec_compile_body(ctx, defs, body, depth) is Some ==> {
            let c = spec_compile_body(ctx, defs, body, depth)->Some_0;
            c.wf() && events_ok(c.events)
        },
    decreases depth, body, 0int,
{
    if body.len() != 0 {
        lemma_tstmt_ok(ctx, defs, body[0], depth);
        if spec_compile_tstmt(ctx, defs, body[0], depth) is Some {
            lemma_body_ok(
                spec_compile_tstmt(ctx, defs, body[0], depth)->Some_0,
                defs,
                body.drop_first(),
                depth,
            );
        }
    }
}

proof fn lemma_tstmt_ok(ctx: CtxModel, defs: Seq<Statement>, stmt: TrackStatement, depth: nat)
    requires
        ctx.wf(),
        events_ok(ctx.events),
    ensures
        spec_compile_tstmt(ctx, defs, stmt, depth) is Some ==> {
            let c = spec_compile_tstmt(ctx, defs, stmt, depth)->Some_0;
            c.wf() && events_ok(c.events)
        },
    decreases depth, stmt, 1int,
{
    match stmt {
        TrackStatement::NoteEvent { pitch, velocity, audible_duration, step_duration } => {
            match audible_duration {
                Some(d) => {
                    lemma_duration_wf(d, ctx.default_duration);
                },
                None => {},
            }
            match step_duration {
                Some(d) => {
                    lemma_duration_wf(d, ctx.default_duration);
                },
                None => {},
            }
            if spec_resolve_duration(step_duration, ctx.default_duration) is Some {
                lemma_add_wf(
                    ctx.cursor,
                    spec_resolve_duration(step_duration, ctx.default_duration)->Some_0,
                );
            }
        },
        TrackStatement::Chord { notes, audible_duration, step_duration } => {
            match audible_duration {
                Some(d) => {
                    lemma_duration_wf(d, ctx.default_duration);
                },
                None => {},
            }
            let ca_opt = match audible_duration {
                Some(d) => match spec_duration_to_beats(d, ctx.default_duration) {
                    Some(v) => Some(Some(v)),
                    None => None,
                },
                None => Some(None),
            };
            match ca_opt {
                Some(ca) => {
                    lemma_chord_ok(ctx.cursor, ctx.default_duration, ca, notes@);
                },
                None => {},
            }
            match step_duration {
                Some(d) => {
                    lemma_duration_wf(d, ctx.default_duration);
                },
                None => {},
            }
            if spec_resolve_duration(step_duration, ctx.default_duration) is Some {
                lemma_add_wf(
                    ctx.cursor,
                    spec_resolve_duration(step_duration, ctx.default_duration)->Some_0,
                );
            }
        },
        TrackStatement::Rest(d) => {
            lemma_duration_wf(d, ctx.default_duration);
            if spec_duration_to_beats(d, ctx.default_duration) is Some {
                lemma_add_wf(ctx.cursor, spec_duration_to_beats(d, ctx.default_duration)->Some_0);
            }
        },
        TrackStatement::Assignment { target, value } => {
            lemma_assignment_ok(ctx, target@, value);
        },
        TrackStatement::ForLoop { body, .. } => {
            lemma_body_ok(ctx, defs, body@, depth);
        },
        TrackStatement::TrackCall { name, velocity, play_duration, args, step } => {
            match spec_lookup_track(defs, name@) {
                Some(body) => {
                    if depth > 0 {
                        lemma_known_call_ok(
                            ctx,
                            defs,
                            body@,
                            play_duration,
                            step,
                            (depth - 1) as nat,
                        );
                    }
                },
                None => {
                    lemma_unknown_call_ok(ctx, name@, velocity, play_duration, args@, step);
                },
            }
        },
        TrackStatement::Comment(_) => {},
    }
}

proof fn lemma_stmts_ok(ctx: CtxModel, defs: Seq<Statement>, stmts: Seq<Statement>, depth: nat)
    requires
        ctx.wf(),
        events_ok(ctx.events),
    ensures
        spec_compile_stmts(ctx, defs, stmts, depth) is Some ==> {
            let c = spec_compile_stmts(ctx, defs, stmts, depth)->Some_0;
            c.wf() && events_ok(c.events)
        },
    decreases depth, stmts, 0int,
{
    if stmts.len() != 0 {
        lemma_stmt_ok(ctx, defs, stmts[0], depth);
        if spec_compile_stmt(ctx, defs, stmts[0], depth) is Some {
            lemma_stmts_ok(
                spec_compile_stmt(ctx, defs, stmts[0], depth)->Some_0,
                defs,
                stmts.drop_first(),
                depth,
            );
        }
    }
}

/// Every event of a compiled list is well formed: its time is a valid
/// rational, a note's velocity lies in `0 ..= 127` and its gate is a valid
/// nonnegative rational; and the list's `total_beats` is a valid rational.
pub proof fn lemma_compile_events_ok(p: Program)
    ensures
        spec_compile(p) is Some ==> {
            let el = spec_compile(p)->Some_0;
            el.total_beats.wf() && events_ok(el.events)
        },
{
    if spec_compile(p) is Some {
        lemma_stmts_ok(
            CtxModel::init(),
            p.statements@,
            p.statements@,
            MAX_TRACK_DEPTH as nat,
        );
        let c = spec_compile_stmts(
            CtxModel::init(),
            p.statements@,
            p.statements@,
            MAX_TRACK_DEPTH as nat,
        )->Some_0;
        lemma_stable_sort_props(c.events);
        let sorted = spec_stable_sort(c.events);
        assert forall|i: int| 0 <= i < sorted.len() implies event_ok(#[trigger] sorted[i]) by {
            let j = choose|j: int| 0 <= j < c.events.len() && sorted[i] == c.events[j];
            assert(event_ok(c.events[j]));
        }
    }
}

/// The total length of a compiled list is the compiler's final cursor
/// position, not the end of the last note's sustain.
pub proof fn lemma_total_beats_is_final_cursor(p: Program)
    ensures
        spec_compile(p) is Some ==> spec_compile(p)->Some_0.total_beats == spec_compile_stmts(
            CtxModel::init(),
            p.statements@,
            p.statements@,
            MAX_TRACK_DEPTH as nat,
        )->Some_0.cursor,
{
}

/// Compilation is a function of the program alone: two compiled results of
/// the same program are equal.
pub proof fn lemma_compile_deterministic(p: Program, r1: EventListModel, r2: EventListModel)
    requires
        spec_compile(p) == Some(r1),
        spec_compile(p) == Some(r2),
    ensures
        r1 == r2,
{
}

} // verus!
