//! The grade of a finished attempt.

use vstd::prelude::*;

verus! {

/// Grades, best first.
#[derive(PartialEq, Eq, Structural, Clone, Copy)]
pub enum Grade {
    SS,
    S,
    A,
    B,
    C,
    F,
}

/// Rank of a grade: 0 for the best.
pub open spec fn grade_rank(g: Grade) -> int {
    match g {
        Grade::SS => 0,
        Grade::S => 1,
        Grade::A => 2,
        Grade::B => 3,
        Grade::C => 4,
        Grade::F => 5,
    }
}

/// The grade of an accuracy in whole percent: 100 is SS, 95-99 S, 88-94 A,
/// 75-87 B, 60-74 C, anything else F.
pub open spec fn grade_of(percent: u32) -> Grade {
    if percent == 100 {
        Grade::SS
    } else if 95 <= percent <= 99 {
        Grade::S
    } else if 88 <= percent <= 94 {
        Grade::A
    } else if 75 <= percent <= 87 {
        Grade::B
    } else if 60 <= percent <= 74 {
        Grade::C
    } else {
        Grade::F
    }
}

pub fn grade_for(percent: u32) -> (g: Grade)
    ensures
        g == grade_of(percent),
{
    if percent == 100 {
        Grade::SS
    } else if 95 <= percent && percent <= 99 {
        Grade::S
    } else if 88 <= percent && percent <= 94 {
        Grade::A
    } else if 75 <= percent && percent <= 87 {
        Grade::B
    } else if 60 <= percent && percent <= 74 {
        Grade::C
    } else {
        Grade::F
    }
}

pub open spec fn grade_letter_of(g: Grade) -> Seq<char> {
    match g {
        Grade::SS => "SS"@,
        Grade::S => "S"@,
        Grade::A => "A"@,
        Grade::B => "B"@,
        Grade::C => "C"@,
        Grade::F => "F"@,
    }
}

impl Grade {
    /// The letters shown for the grade.
    pub fn letter(&self) -> (r: &'static str)
        ensures
            r@ == grade_letter_of(*self),
    {
        match self {
            Grade::SS => "SS",
            Grade::S => "S",
            Grade::A => "A",
            Grade::B => "B",
            Grade::C => "C",
            Grade::F => "F",
        }
    }
}

/// A better accuracy never gives a worse grade, up to 100 percent.
pub proof fn lemma_grade_monotone(p: u32, q: u32)
    requires
        p <= q <= 100,
    ensures
        grade_rank(grade_of(q)) <= grade_rank(grade_of(p)),
{
}

} // verus!
