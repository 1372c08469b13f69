//! A recursive-descent parser for the concrete SongWalker syntax.
//!
//! The grammar covered here is the source language's core: track
//! definitions `track name() { ... }`, track calls `name(args) [step];`,
//! assignments `target = value;`, and inside a track body notes
//! (`C3`, `C3*80`, `C3@1`, with a step written `/n`), chords
//! (`[C3, E3, G3]@1 /2`), bare numbers as rests, nested calls and
//! assignments. Line comments start with `//`. The parser is best-effort
//! executable Rust with proved absence of panics; the language's meaning
//! is given by the compiler's contracts, not here.

use crate::ast::{ChordNote, DurationExpr, Expr, Program, Statement, TrackStatement};
use crate::rat::Rat;
use vstd::prelude::*;

verus! {

/// A parse failure, with a human-readable message.
#[derive(Debug)]
pub struct ParseError {
    pub message: String,
}

impl ParseError {
    /// The failure's message.
    pub fn message(&self) -> (r: &String) {
        &self.message
    }
}

#[verifier::loop_isolation(false)]
fn parse_error(msg: &str) -> (e: ParseError) {
    ParseError { message: String::from_str(msg) }
}

#[verifier::loop_isolation(false)]
fn to_chars(s: &str) -> (v: Vec<char>)
    ensures
        v@ == s@,
{
    let n = s.unicode_len();
    let mut v: Vec<char> = Vec::new();
    let mut i: usize = 0;
    while i < n
        invariant
            n == s@.len(),
            i <= n,
            v@ == s@.subrange(0, i as int),
        decreases n - i,
    {
        v.push(s.get_char(i));
        proof {
            assert(v@ =~= s@.subrange(0, i as int + 1));
        }
        i = i + 1;
    }
    proof {
        assert(s@.subrange(0, n as int) =~= s@);
    }
    v
}

fn is_ident_start(c: char) -> (r: bool)
    ensures
        r == (65 <= c as u32 <= 90 || 97 <= c as u32 <= 122 || c == '_'),
{
    let u = c as u32;
    (u >= 65 && u <= 90) || (u >= 97 && u <= 122) || c == '_'
}

fn is_ident_char(c: char) -> (r: bool)
    ensures
        r == (65 <= c as u32 <= 90 || 97 <= c as u32 <= 122 || 48 <= c as u32 <= 57 || c == '_'
            || c == '#'),
{
    let u = c as u32;
    (u >= 65 && u <= 90) || (u >= 97 && u <= 122) || (u >= 48 && u <= 57) || c == '_' || c == '#'
}

fn is_digit_char(c: char) -> (r: bool)
    ensures
        r == crate::strutil::is_digit(c),
{
    let u = c as u32;
    u >= 48 && u <= 57
}

/// Skip spaces, tabs, newlines and `//` line comments.
#[verifier::loop_isolation(false)]
fn skip_ws(chars: &Vec<char>, pos: usize) -> (r: usize)
    requires
        pos <= chars@.len(),
    ensures
        pos <= r <= chars@.len(),
{
    let n = chars.len();
    let mut p = pos;
    while p < n
        invariant
            pos <= p <= n,
            n == chars@.len(),
        decreases n - p,
    {
        let c = chars[p];
        if c == ' ' || c == '\t' || c == '\n' || c == '\r' {
            p = p + 1;
        } else if c == '/' && p + 1 < n && chars[p + 1] == '/' {
            // line comment
            let ghost p0 = p;
            p = p + 2;
            while p < n && chars[p] != '\n'
                invariant
                    pos <= p0,
                    p0 + 2 <= p <= n,
                    n == chars@.len(),
                decreases n - p,
            {
                p = p + 1;
            }
        } else {
            return p;
        }
    }
    p
}

/// Read an identifier (letters, digits, `_`, `#`), possibly dotted
/// (`track.duration`). Returns the new position and the identifier.
#[verifier::loop_isolation(false)]
fn read_ident(chars: &Vec<char>, pos: usize) -> (r: (usize, String))
    requires
        pos <= chars@.len(),
    ensures
        pos <= r.0 <= chars@.len(),
{
    let n = chars.len();
    let mut p = pos;
    let mut s = String::new();
    while p < n && (is_ident_char(chars[p]) || chars[p] == '.')
        invariant
            pos <= p <= n,
            n == chars@.len(),
        decreases n - p,
    {
        s.push(chars[p]);
        p = p + 1;
    }
    (p, s)
}

/// Parse an unsigned integer; `None` on overflow or no digits.
#[verifier::loop_isolation(false)]
fn read_u64(chars: &Vec<char>, pos: usize) -> (r: (usize, Option<u64>))
    requires
        pos <= chars@.len(),
    ensures
        pos <= r.0 <= chars@.len(),
        r.1 is Some ==> r.0 > pos,
{
    let n = chars.len();
    let mut p = pos;
    let mut acc: u64 = 0;
    let mut any = false;
    while p < n && is_digit_char(chars[p])
        invariant
            pos <= p <= n,
            n == chars@.len(),
            !any ==> p == pos,
            any ==> p > pos,
        decreases n - p,
    {
        let d = (chars[p] as u32 - 48) as u64;
        if acc > (u64::MAX - d) / 10 {
            return (p, None);
        }
        acc = acc * 10 + d;
        any = true;
        p = p + 1;
    }
    if any {
        (p, Some(acc))
    } else {
        (p, None)
    }
}

/// Parse a number: `n`, `n.f` (decimal) or a bare integer; the value is an
/// exact rational.
#[verifier::loop_isolation(false)]
fn read_number(chars: &Vec<char>, pos: usize) -> (r: (usize, Option<Rat>))
    requires
        pos <= chars@.len(),
    ensures
        pos <= r.0 <= chars@.len(),
        r.1 is Some ==> r.0 > pos && r.1->Some_0.wf(),
{
    let n = chars.len();
    let (p1, ip) = read_u64(chars, pos);
    let ipv = match ip {
        Some(v) => v,
        None => {
            return (p1, None);
        },
    };
    if p1 < n && chars[p1] == '.' && p1 + 1 < n && is_digit_char(chars[p1 + 1]) {
        let (p2, fp) = read_u64(chars, p1 + 1);
        let fpv = match fp {
            Some(v) => v,
            None => {
                return (p2, None);
            },
        };
        // scale by ten to the number of fractional digits
        let digits = p2 - (p1 + 1);
        let mut den: u64 = 1;
        let mut k: usize = 0;
        while k < digits
            invariant
                k <= digits,
                den >= 1,
            decreases digits - k,
        {
            if den > u64::MAX / 10 {
                return (p2, None);
            }
            den = den * 10;
            k = k + 1;
        }
        let scaled = match ipv.checked_mul(den) {
            Some(v) => v,
            None => {
                return (p2, None);
            },
        };
        let num = match scaled.checked_add(fpv) {
            Some(v) => v,
            None => {
                return (p2, None);
            },
        };
        // keep decimals in lowest terms (0.5 is 1/2)
        match crate::rat::rat_reduce(num as u128, den as u128) {
            Some(r) => {
                proof {
                    crate::rat::lemma_rat_reduce_value(num as nat, den as nat);
                }
                (p2, Some(r))
            },
            None => (p2, None),
        }
    } else {
        (p1, Some(Rat { num: ipv, den: 1 }))
    }
}

/// Parse a duration: `/n` (a note value), `n/m` (a fraction), `n` or `n.f`
/// (beats), or one or more dots (a dots count).
#[verifier::loop_isolation(false)]
fn read_duration(chars: &Vec<char>, pos: usize) -> (r: (usize, Option<DurationExpr>))
    requires
        pos <= chars@.len(),
    ensures
        pos <= r.0 <= chars@.len(),
        r.1 is Some ==> r.0 > pos,
{
    let n = chars.len();
    if pos < n && chars[pos] == '/' {
        let (p1, d) = read_u64(chars, pos + 1);
        match d {
            Some(v) => (p1, Some(DurationExpr::Inverse(v))),
            None => (p1, None),
        }
    } else if pos < n && chars[pos] == '.' {
        let mut p = pos;
        let mut count: u64 = 0;
        while p < n && chars[p] == '.' && count < 1000
            invariant
                pos <= p <= n,
                n == chars@.len(),
                count <= 1000,
                count == p - pos,
            decreases n - p,
        {
            p = p + 1;
            count = count + 1;
        }
        (p, Some(DurationExpr::Dots(count)))
    } else if pos < n && is_digit_char(chars[pos]) {
        let (p1, nv) = read_u64(chars, pos);
        let nvv = match nv {
            Some(v) => v,
            None => {
                return (p1, None);
            },
        };
        if p1 < n && chars[p1] == '/' {
            let (p2, mv) = read_u64(chars, p1 + 1);
            match mv {
                Some(m) => (p2, Some(DurationExpr::Fraction(nvv, m))),
                None => (p2, None),
            }
        } else if p1 < n && chars[p1] == '.' && p1 + 1 < n && is_digit_char(chars[p1 + 1]) {
            let (p2, r) = read_number(chars, pos);
            match r {
                Some(v) => (p2, Some(DurationExpr::Beats(v))),
                None => (p2, None),
            }
        } else {
            (p1, Some(DurationExpr::Beats(Rat { num: nvv, den: 1 })))
        }
    } else {
        (pos, None)
    }
}

/// Parse a value expression: a string literal, a number (a bare integer or
/// decimal), a fraction (as a duration literal), or an identifier.
#[verifier::loop_isolation(false)]
fn read_expr(chars: &Vec<char>, pos: usize) -> (r: (usize, Option<Expr>))
    requires
        pos <= chars@.len(),
    ensures
        pos <= r.0 <= chars@.len(),
        r.1 is Some ==> r.0 > pos,
{
    let n = chars.len();
    if pos >= n {
        return (pos, None);
    }
    let c = chars[pos];
    if c == '"' {
        let mut p = pos + 1;
        let mut s = String::new();
        while p < n && chars[p] != '"'
            invariant
                pos + 1 <= p <= n,
                n == chars@.len(),
            decreases n - p,
        {
            s.push(chars[p]);
            p = p + 1;
        }
        if p < n {
            (p + 1, Some(Expr::StringLit(s)))
        } else {
            (p, None)
        }
    } else if is_digit_char(c) {
        let (p1, nv) = read_u64(chars, pos);
        let nvv = match nv {
            Some(v) => v,
            None => {
                return (p1, None);
            },
        };
        if p1 < n && chars[p1] == '/' {
            let (p2, mv) = read_u64(chars, p1 + 1);
            match mv {
                Some(m) => (p2, Some(Expr::DurationLit(DurationExpr::Fraction(nvv, m)))),
                None => (p2, None),
            }
        } else if p1 < n && chars[p1] == '.' && p1 + 1 < n && is_digit_char(chars[p1 + 1]) {
            let (p2, r) = read_number(chars, pos);
            match r {
                Some(v) => (p2, Some(Expr::Number(v))),
                None => (p2, None),
            }
        } else {
            (p1, Some(Expr::Number(Rat { num: nvv, den: 1 })))
        }
    } else if is_ident_start(c) {
        let (p1, id) = read_ident(chars, pos);
        if p1 > pos {
            (p1, Some(Expr::Identifier(id)))
        } else {
            (p1, None)
        }
    } else {
        (pos, None)
    }
}

/// Parse one note inside a chord: a pitch with an optional `@` duration.
#[verifier::loop_isolation(false)]
fn read_chord_note(chars: &Vec<char>, pos: usize) -> (r: (usize, Option<ChordNote>))
    requires
        pos <= chars@.len(),
    ensures
        pos <= r.0 <= chars@.len(),
        r.1 is Some ==> r.0 > pos,
{
    let n = chars.len();
    if pos >= n || !is_ident_start(chars[pos]) {
        return (pos, None);
    }
    let (p1, pitch) = read_ident(chars, pos);
    if p1 == pos {
        return (pos, None);
    }
    let p2 = skip_ws(chars, p1);
    if p2 < n && chars[p2] == '@' {
        let (p3, d) = read_duration(chars, p2 + 1);
        match d {
            Some(dur) => (p3, Some(ChordNote { pitch, audible_duration: Some(dur) })),
            None => (p3, None),
        }
    } else {
        (p1, Some(ChordNote { pitch, audible_duration: None }))
    }
}

/// Parse a call's argument list and optional step:
/// `( expr, ... ) [step]`, starting at the `(`.
#[verifier::loop_isolation(false)]
fn read_call_tail(chars: &Vec<char>, pos: usize) -> (r: (usize, Option<(Vec<Expr>, Option<
    DurationExpr,
>)>))
    requires
        pos < chars@.len(),
        chars@[pos as int] == '(',
    ensures
        pos <= r.0 <= chars@.len(),
{
    let n = chars.len();
    let mut p = skip_ws(chars, pos + 1);
    let mut args: Vec<Expr> = Vec::new();
    while p < n && chars[p] != ')'
        invariant
            pos < p <= n,
            n == chars@.len(),
        decreases n - p,
    {
        let (p1, e) = read_expr(chars, p);
        match e {
            Some(expr) => {
                args.push(expr);
                let p2 = skip_ws(chars, p1);
                if p2 < n && chars[p2] == ',' {
                    p = skip_ws(chars, p2 + 1);
                } else {
                    p = p2;
                }
            },
            None => {
                return (p, None);
            },
        }
    }
    if p >= n {
        return (p, None);
    }
    // past the ')'
    let mut q = skip_ws(chars, p + 1);
    let mut step: Option<DurationExpr> = None;
    if q < n && (chars[q] == '/' || is_digit_char(chars[q])) {
        let (q1, d) = read_duration(chars, q);
        match d {
            Some(dur) => {
                step = Some(dur);
                q = q1;
            },
            None => {
                return (q1, None);
            },
        }
    }
    let q2 = skip_ws(chars, q);
    if q2 < n && chars[q2] == ';' {
        (q2 + 1, Some((args, step)))
    } else {
        (q2, Some((args, step)))
    }
}

/// Parse the statements of a track body up to (not past) the closing `}`.
#[verifier::loop_isolation(false)]
fn read_track_body(chars: &Vec<char>, pos: usize) -> (r: (usize, Option<Vec<TrackStatement>>))
    requires
        pos <= chars@.len(),
    ensures
        pos <= r.0 <= chars@.len(),
{
    let n = chars.len();
    let mut p = skip_ws(chars, pos);
    let mut body: Vec<TrackStatement> = Vec::new();
    while p < n && chars[p] != '}'
        invariant
            pos <= p <= n,
            n == chars@.len(),
        decreases n - p,
    {
        let c = chars[p];
        if c == ';' {
            p = skip_ws(chars, p + 1);
            continue;
        }
        if c == '[' {
            // chord
            let mut q = skip_ws(chars, p + 1);
            let mut notes: Vec<ChordNote> = Vec::new();
            let mut closed = false;
            while q < n && !closed
                invariant
                    p < q <= n,
                    n == chars@.len(),
                decreases n - q,
            {
                if chars[q] == ']' {
                    q = q + 1;
                    closed = true;
                } else {
                    let (q1, note) = read_chord_note(chars, q);
                    match note {
                        Some(cn) => {
                            notes.push(cn);
                            let q2 = skip_ws(chars, q1);
                            if q2 < n && chars[q2] == ',' {
                                q = skip_ws(chars, q2 + 1);
                            } else {
                                q = q2;
                            }
                        },
                        None => {
                            return (q1, None);
                        },
                    }
                }
            }
            if !closed {
                return (q, None);
            }
            let mut audible: Option<DurationExpr> = None;
            let mut q2 = skip_ws(chars, q);
            if q2 < n && chars[q2] == '@' {
                let (q3, d) = read_duration(chars, q2 + 1);
                match d {
                    Some(dur) => {
                        audible = Some(dur);
                        q2 = skip_ws(chars, q3);
                    },
                    None => {
                        return (q3, None);
                    },
                }
            }
            let mut step: Option<DurationExpr> = None;
            if q2 < n && (chars[q2] == '/' || chars[q2] == '.') {
                let (q3, d) = read_duration(chars, q2);
                match d {
                    Some(dur) => {
                        step = Some(dur);
                        q2 = q3;
                    },
                    None => {
                        return (q3, None);
                    },
                }
            }
            body.push(TrackStatement::Chord { notes, audible_duration: audible, step_duration: step });
            p = skip_ws(chars, q2);
        } else if is_digit_char(c) || c == '/' {
            // a bare duration is a rest
            let (q, d) = read_duration(chars, p);
            match d {
                Some(dur) => {
                    body.push(TrackStatement::Rest(dur));
                    p = skip_ws(chars, q);
                },
                None => {
                    return (q, None);
                },
            }
        } else if is_ident_start(c) {
            let (q, name) = read_ident(chars, p);
            if q == p {
                return (p, None);
            }
            let q1 = skip_ws(chars, q);
            if q1 < n && chars[q1] == '=' {
                let q2 = skip_ws(chars, q1 + 1);
                let (q3, e) = read_expr(chars, q2);
                match e {
                    Some(expr) => {
                        body.push(TrackStatement::Assignment { target: name, value: expr });
                        p = skip_ws(chars, q3);
                    },
                    None => {
                        return (q3, None);
                    },
                }
            } else if q1 < n && chars[q1] == '(' {
                let (q2, tail) = read_call_tail(chars, q1);
                match tail {
                    Some((args, step)) => {
                        body.push(
                            TrackStatement::TrackCall {
                                name,
                                velocity: None,
                                play_duration: None,
                                args,
                                step,
                            },
                        );
                        p = skip_ws(chars, q2);
                    },
                    None => {
                        return (q2, None);
                    },
                }
            } else {
                // a note: optional *velocity, @audible, /step
                let mut velocity: Option<u64> = None;
                let mut audible: Option<DurationExpr> = None;
                let mut step: Option<DurationExpr> = None;
                let mut q2 = q1;
                if q2 < n && chars[q2] == '*' {
                    let (q3, v) = read_u64(chars, q2 + 1);
                    match v {
                        Some(vel) => {
                            velocity = Some(vel);
                            q2 = skip_ws(chars, q3);
                        },
                        None => {
                            return (q3, None);
                        },
                    }
                }
                if q2 < n && chars[q2] == '@' {
                    let (q3, d) = read_duration(chars, q2 + 1);
                    match d {
                        Some(dur) => {
                            audible = Some(dur);
                            q2 = skip_ws(chars, q3);
                        },
                        None => {
                            return (q3, None);
                        },
                    }
                }
                if q2 < n && (chars[q2] == '/' || chars[q2] == '.') {
                    let (q3, d) = read_duration(chars, q2);
                    match d {
                        Some(dur) => {
                            step = Some(dur);
                            q2 = q3;
                        },
                        None => {
                            return (q3, None);
                        },
                    }
                }
                body.push(
                    TrackStatement::NoteEvent {
                        pitch: name,
                        velocity,
                        audible_duration: audible,
                        step_duration: step,
                    },
                );
                p = skip_ws(chars, q2);
            }
        } else {
            return (p, None);
        }
    }
    (p, Some(body))
}

/// Parse a `.sw` source string into a `Program`.
#[verifier::loop_isolation(false)]
pub fn parse(input: &str) -> (r: Result<Program, ParseError>) {
    let chars = to_chars(input);
    let n = chars.len();
    let mut statements: Vec<Statement> = Vec::new();
    let mut p = skip_ws(&chars, 0);
    while p < n
        invariant
            p <= n,
            n == chars@.len(),
        decreases n - p,
    {
        let c = chars[p];
        if c == ';' {
            p = skip_ws(&chars, p + 1);
            continue;
        }
        if !is_ident_start(c) {
            return Err(parse_error("expected a statement"));
        }
        let (q, name) = read_ident(&chars, p);
        if q == p {
            return Err(parse_error("expected an identifier"));
        }
        let q1 = skip_ws(&chars, q);
        if str_is_track(&name) && q1 < n && is_ident_start(chars[q1]) {
            // track definition
            let (q2, tname) = read_ident(&chars, q1);
            if q2 == q1 {
                return Err(parse_error("expected a track name"));
            }
            let q3 = skip_ws(&chars, q2);
            if !(q3 < n && chars[q3] == '(') {
                return Err(parse_error("expected '(' after the track name"));
            }
            let mut q4 = skip_ws(&chars, q3 + 1);
            let mut params: Vec<String> = Vec::new();
            while q4 < n && chars[q4] != ')'
                invariant
                    p < q4 <= n,
                    n == chars@.len(),
                decreases n - q4,
            {
                let (q5, pn) = read_ident(&chars, q4);
                if q5 == q4 {
                    return Err(parse_error("expected a parameter name"));
                }
                params.push(pn);
                let q6 = skip_ws(&chars, q5);
                if q6 < n && chars[q6] == ',' {
                    q4 = skip_ws(&chars, q6 + 1);
                } else {
                    q4 = q6;
                }
            }
            if q4 >= n {
                return Err(parse_error("unclosed parameter list"));
            }
            let q5 = skip_ws(&chars, q4 + 1);
            if !(q5 < n && chars[q5] == '{') {
                return Err(parse_error("expected '{' to open the track body"));
            }
            let (q6, body) = read_track_body(&chars, q5 + 1);
            let body = match body {
                Some(b) => b,
                None => {
                    return Err(parse_error("bad statement in a track body"));
                },
            };
            if !(q6 < n && chars[q6] == '}') {
                return Err(parse_error("unclosed track body"));
            }
            statements.push(Statement::TrackDef { name: tname, params, body });
            p = skip_ws(&chars, q6 + 1);
        } else if q1 < n && chars[q1] == '=' {
            let q2 = skip_ws(&chars, q1 + 1);
            let (q3, e) = read_expr(&chars, q2);
            match e {
                Some(expr) => {
                    statements.push(Statement::Assignment { target: name, value: expr });
                    let q4 = skip_ws(&chars, q3);
                    if q4 < n && chars[q4] == ';' {
                        p = skip_ws(&chars, q4 + 1);
                    } else {
                        p = q4;
                    }
                },
                None => {
                    return Err(parse_error("expected a value after '='"));
                },
            }
        } else if q1 < n && chars[q1] == '(' {
            let (q2, tail) = read_call_tail(&chars, q1);
            match tail {
                Some((args, step)) => {
                    statements.push(
                        Statement::TrackCall {
                            name,
                            velocity: None,
                            play_duration: None,
                            args,
                            step,
                        },
                    );
                    p = skip_ws(&chars, q2);
                },
                None => {
                    return Err(parse_error("bad track call"));
                },
            }
        } else {
            return Err(parse_error("expected '=', '(' or a track definition"));
        }
    }
    Ok(Program { statements })
}

#[verifier::loop_isolation(false)]
fn str_is_track(s: &String) -> (r: bool) {
    crate::strutil::str_eq(s.as_str(), "track")
}

} // verus!
