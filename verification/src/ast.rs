//! Abstract syntax of the SongWalker language.
//!
//! The compiler consumes this tree; the parser produces the subset of it
//! that the concrete syntax can spell.

use crate::rat::Rat;
use vstd::prelude::*;

verus! {

/// A musical duration expression.
#[derive(Debug)]
pub enum DurationExpr {
    /// A raw beat count.
    Beats(Rat),
    /// The note value `1/n`.
    Inverse(u64),
    /// The fraction `n/m`.
    Fraction(u64, u64),
    /// `k` dots: `k` times the current default duration.
    Dots(u64),
}

/// A value in source position.
#[derive(Debug)]
pub enum Expr {
    Identifier(String),
    StringLit(String),
    Number(Rat),
    RegexLit(String),
    DurationLit(DurationExpr),
}

/// A note inside a chord: a pitch with an optional audible duration that
/// overrides the chord-level default.
#[derive(Debug)]
pub struct ChordNote {
    pub pitch: String,
    pub audible_duration: Option<DurationExpr>,
}

/// A statement inside a track body.
#[derive(Debug)]
pub enum TrackStatement {
    NoteEvent {
        pitch: String,
        velocity: Option<u64>,
        audible_duration: Option<DurationExpr>,
        step_duration: Option<DurationExpr>,
    },
    Chord {
        notes: Vec<ChordNote>,
        audible_duration: Option<DurationExpr>,
        step_duration: Option<DurationExpr>,
    },
    Rest(DurationExpr),
    Assignment {
        target: String,
        value: Expr,
    },
    ForLoop {
        init: String,
        condition: String,
        update: String,
        body: Vec<TrackStatement>,
    },
    TrackCall {
        name: String,
        velocity: Option<u64>,
        play_duration: Option<DurationExpr>,
        args: Vec<Expr>,
        step: Option<DurationExpr>,
    },
    Comment(String),
}

/// A top-level statement.
#[derive(Debug)]
pub enum Statement {
    TrackDef {
        name: String,
        params: Vec<String>,
        body: Vec<TrackStatement>,
    },
    TrackCall {
        name: String,
        velocity: Option<u64>,
        play_duration: Option<DurationExpr>,
        args: Vec<Expr>,
        step: Option<DurationExpr>,
    },
    ConstDecl {
        name: String,
        value: Expr,
    },
    Assignment {
        target: String,
        value: Expr,
    },
    Comment(String),
}

/// A parsed program: a sequence of top-level statements.
#[derive(Debug)]
pub struct Program {
    pub statements: Vec<Statement>,
}

} // verus!
