//! The structured output of a conversion: points, tagged shape records,
//! the ordered collection they are gathered in, and the parse errors.
//!
//! A coordinate is carried as its textual form, already checked to be
//! well-formed floating-point text; turning it into a machine float is
//! left to the caller that serialises the collection.

use vstd::prelude::*;
use crate::numbers::{dec_str, lemma_dec_str_injective};
use crate::text::chars_to_string;

verus! {

/// A two-dimensional coordinate, each component as numeric text.
#[derive(Debug)]
pub struct Point {
    pub x: String,
    pub y: String,
}

/// Mathematical model of a `Point`.
pub struct PointModel {
    pub x: Seq<char>,
    pub y: Seq<char>,
}

impl View for Point {
    type V = PointModel;

    open spec fn view(&self) -> PointModel {
        PointModel { x: self.x@, y: self.y@ }
    }
}

/// One parsed record: a line segment or a quadrilateral. The `typ`
/// field carries the constant discriminator text that the serialised
/// form shows; `selected` is always initialised to `false`.
#[derive(Debug)]
pub enum Shape {
    Line { name: String, typ: String, start: Point, end: Point, selected: bool },
    Quad {
        name: String,
        typ: String,
        pos1: Point,
        pos2: Point,
        pos3: Point,
        pos4: Point,
        selected: bool,
    },
}

/// Mathematical model of a `Shape`.
pub enum ShapeModel {
    Line { name: Seq<char>, typ: Seq<char>, start: PointModel, end: PointModel, selected: bool },
    Quad {
        name: Seq<char>,
        typ: Seq<char>,
        pos1: PointModel,
        pos2: PointModel,
        pos3: PointModel,
        pos4: PointModel,
        selected: bool,
    },
}

impl View for Shape {
    type V = ShapeModel;

    open spec fn view(&self) -> ShapeModel {
        match self {
            Shape::Line { name, typ, start, end, selected } => ShapeModel::Line {
                name: name@,
                typ: typ@,
                start: start@,
                end: end@,
                selected: *selected,
            },
            Shape::Quad { name, typ, pos1, pos2, pos3, pos4, selected } => ShapeModel::Quad {
                name: name@,
                typ: typ@,
                pos1: pos1@,
                pos2: pos2@,
                pos3: pos3@,
                pos4: pos4@,
                selected: *selected,
            },
        }
    }
}

/// An ordered collection of shapes. The shape at position `i` is keyed
/// by the decimal text of `i`; keys are assigned across lines and quads
/// by one running counter and never reused.
#[derive(Debug)]
pub struct ShapeCollection {
    pub shapes: Vec<Shape>,
}

impl View for ShapeCollection {
    type V = Seq<ShapeModel>;

    open spec fn view(&self) -> Seq<ShapeModel> {
        self.shapes@.map_values(|s: Shape| s@)
    }
}

impl ShapeCollection {
    /// The collection with no shapes.
    pub fn new() -> (c: ShapeCollection)
        ensures
            c@ == Seq::<ShapeModel>::empty(),
    {
        let c = ShapeCollection { shapes: Vec::new() };
        proof {
            assert(c@ =~= Seq::<ShapeModel>::empty());
        }
        c
    }

    /// How many shapes the collection holds.
    pub fn len(&self) -> (n: usize)
        ensures
            n == self@.len(),
    {
        self.shapes.len()
    }

    /// The shape stored at position `i`.
    pub fn get(&self, i: usize) -> (s: &Shape)
        requires
            i < self@.len(),
        ensures
            s@ == self@[i as int],
    {
        &self.shapes[i]
    }

    /// The key under which position `i` is serialised: the decimal text
    /// of the index.
    pub fn key_of(&self, i: usize) -> (k: String)
        ensures
            k@ == dec_str(i as nat),
    {
        let digits = crate::numbers::dec_chars(i);
        chars_to_string(&digits)
    }

    /// Appends a shape at the next index.
    pub fn push(&mut self, s: Shape)
        ensures
            final(self)@ == old(self)@.push(s@),
    {
        self.shapes.push(s);
        proof {
            assert(self@ =~= old(self)@.push(s@));
        }
    }
}

/// Distinct positions carry distinct serialisation keys: the decimal
/// texts of two different indices never coincide.
pub proof fn lemma_keys_unique(i: nat, j: nat)
    requires
        i != j,
    ensures
        dec_str(i) != dec_str(j),
{
    if dec_str(i) == dec_str(j) {
        lemma_dec_str_injective(i, j);
    }
}

/// Why a conversion was rejected.
#[derive(PartialEq, Eq, Debug)]
pub enum ParseError {
    /// A coordinate piece is not well-formed floating-point text; the
    /// offending piece is carried verbatim.
    MalformedCoordinates { raw: String },
    /// A record supplied the wrong number of coordinate components for
    /// its shape.
    InvalidArity { expected: usize, found: usize },
}

/// Mathematical model of a `ParseError`.
pub enum ErrorModel {
    MalformedCoordinates { raw: Seq<char> },
    InvalidArity { expected: nat, found: nat },
}

impl View for ParseError {
    type V = ErrorModel;

    open spec fn view(&self) -> ErrorModel {
        match self {
            ParseError::MalformedCoordinates { raw } => ErrorModel::MalformedCoordinates {
                raw: raw@,
            },
            ParseError::InvalidArity { expected, found } => ErrorModel::InvalidArity {
                expected: *expected as nat,
                found: *found as nat,
            },
        }
    }
}

} // verus!
