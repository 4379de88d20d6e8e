//! Elections: the draft a caller hands in, the record the ledger keeps, and
//! the view it hands out.

use vstd::prelude::*;
use vstd::string::*;
use crate::decimal::{decimal_value, denotes_at_most, parse_u64};
use crate::error::ValidationError;

verus! {

/// The largest number of candidates an election may have. A candidate is
/// known by its position in the list, and a position must fit in eight bits.
pub const CANDIDATES_LIMIT: u16 = 256;

/// The texts that a vector of strings holds, in order.
pub open spec fn texts(strings: Seq<String>) -> Seq<Seq<char>> {
    Seq::new(strings.len(), |i: int| strings[i]@)
}

/// What a draft says, as mathematics.
pub struct DraftData {
    pub start: Seq<char>,
    pub end: Seq<char>,
    pub title: Seq<char>,
    pub description: Seq<char>,
    pub candidates: Seq<Seq<char>>,
}

/// What an election is, as mathematics.
pub struct ElectionData {
    pub start: nat,
    pub end: nat,
    pub title: Seq<char>,
    pub description: Seq<char>,
    pub candidates: Seq<Seq<char>>,
}

impl DraftData {
    /// Whether both timestamps are decimal text for 64-bit numbers.
    pub open spec fn timestamps_readable(self) -> bool {
        denotes_at_most(self.start, u64::MAX as nat) && denotes_at_most(self.end, u64::MAX as nat)
    }

    /// The election that the draft describes.
    pub open spec fn election(self) -> ElectionData {
        ElectionData {
            start: decimal_value(self.start),
            end: decimal_value(self.end),
            title: self.title,
            description: self.description,
            candidates: self.candidates,
        }
    }
}

impl ElectionData {
    /// The first rule of creation that the election breaks at time `now`, if
    /// it breaks one. The rules are tried in this order: at least two
    /// candidates, at most 256, a start in the future, a start before the end.
    pub open spec fn creation_error(self, now: nat) -> Option<ValidationError> {
        if self.candidates.len() <= 1 {
            Some(ValidationError::CandidateCountLow)
        } else if self.candidates.len() > CANDIDATES_LIMIT {
            Some(ValidationError::CandidateCountHigh)
        } else if self.start <= now {
            Some(ValidationError::StartNotFuture)
        } else if self.start >= self.end {
            Some(ValidationError::StartNotBeforeEnd)
        } else {
            None
        }
    }

    /// What holds of every election that the ledger keeps: it starts before it
    /// ends, and it has between 2 and 256 candidates.
    pub open spec fn well_formed(self) -> bool {
        &&& self.start < self.end
        &&& 2 <= self.candidates.len() <= CANDIDATES_LIMIT
    }
}

/// A draft of an election, as a caller hands it in. Both timestamps are
/// decimal text.
#[derive(Debug, PartialEq, Eq)]
pub struct ElectionInput {
    pub start: String,
    pub end: String,
    pub title: String,
    pub description: String,
    pub candidates: Vec<String>,
}

impl View for ElectionInput {
    type V = DraftData;

    open spec fn view(&self) -> DraftData {
        DraftData {
            start: self.start@,
            end: self.end@,
            title: self.title@,
            description: self.description@,
            candidates: texts(self.candidates@),
        }
    }
}

impl ElectionInput {
    /// Whether both timestamps can be read as 64-bit numbers.
    pub fn timestamps_readable(&self) -> (readable: bool)
        ensures
            readable == self@.timestamps_readable(),
    {
        parse_u64(self.start.as_str()).is_some() && parse_u64(self.end.as_str()).is_some()
    }
}

/// An election as the ledger keeps it. It never changes once it is stored.
#[derive(Debug, PartialEq, Eq)]
pub struct Election {
    pub start: u64,
    pub end: u64,
    pub title: String,
    pub description: String,
    pub candidates: Vec<String>,
}

impl View for Election {
    type V = ElectionData;

    open spec fn view(&self) -> ElectionData {
        ElectionData {
            start: self.start as nat,
            end: self.end as nat,
            title: self.title@,
            description: self.description@,
            candidates: texts(self.candidates@),
        }
    }
}

/// A copy of a list of strings.
fn copy_texts(strings: &Vec<String>) -> (copy: Vec<String>)
    ensures
        texts(copy@) == texts(strings@),
{
    let mut copy: Vec<String> = Vec::new();
    let mut i: usize = 0;
    while i < strings.len()
        invariant
            i <= strings@.len(),
            copy@.len() == i,
            forall|j: int| 0 <= j < i ==> copy@[j]@ == strings@[j]@,
        decreases strings@.len() - i,
    {
        copy.push(strings[i].clone());
        i = i + 1;
    }
    assert(texts(copy@) =~= texts(strings@));
    copy
}

impl Clone for Election {
    fn clone(&self) -> (copy: Self)
        ensures
            copy@ == self@,
    {
        Election {
            start: self.start,
            end: self.end,
            title: self.title.clone(),
            description: self.description.clone(),
            candidates: copy_texts(&self.candidates),
        }
    }
}

impl Election {
    /// Reads a draft. The timestamps must be readable; nothing else is asked
    /// of the draft here.
    pub fn new(input: &ElectionInput) -> (election: Self)
        requires
            input@.timestamps_readable(),
        ensures
            election@ == input@.election(),
    {
        let start = parse_u64(input.start.as_str());
        let end = parse_u64(input.end.as_str());
        Election {
            start: start.unwrap(),
            end: end.unwrap(),
            title: input.title.clone(),
            description: input.description.clone(),
            candidates: copy_texts(&input.candidates),
        }
    }

    /// Tries the rules of creation at time `now`, in their order, and names
    /// the first that the election breaks.
    pub fn validate(&self, now: u64) -> (verdict: Result<(), ValidationError>)
        ensures
            verdict == (match self@.creation_error(now as nat) {
                Some(error) => Err::<(), ValidationError>(error),
                None => Ok(()),
            }),
    {
        if self.candidates.len() <= 1 {
            Err(ValidationError::CandidateCountLow)
        } else if self.candidates.len() > CANDIDATES_LIMIT as usize {
            Err(ValidationError::CandidateCountHigh)
        } else if self.start <= now {
            Err(ValidationError::StartNotFuture)
        } else if self.start >= self.end {
            Err(ValidationError::StartNotBeforeEnd)
        } else {
            Ok(())
        }
    }
}

/// One line of a tally as text.
pub struct CandidateData {
    pub name: Seq<char>,
    pub votes: Seq<char>,
}

/// What a view of an election says, as mathematics.
pub struct ElectionViewData {
    pub start: Seq<char>,
    pub end: Seq<char>,
    pub title: Seq<char>,
    pub description: Seq<char>,
    pub candidates: Seq<CandidateData>,
}

/// A candidate and the votes cast for it, the count as decimal text.
#[derive(Debug, PartialEq, Eq)]
pub struct Candidate {
    pub name: String,
    pub votes: String,
}

impl View for Candidate {
    type V = CandidateData;

    open spec fn view(&self) -> CandidateData {
        CandidateData { name: self.name@, votes: self.votes@ }
    }
}

/// An election as clients see it: what was stored, every number as decimal
/// text, and beside each candidate its tally.
#[derive(Debug, PartialEq, Eq)]
pub struct ElectionView {
    pub start: String,
    pub end: String,
    pub title: String,
    pub description: String,
    pub candidates: Vec<Candidate>,
}

impl View for ElectionView {
    type V = ElectionViewData;

    open spec fn view(&self) -> ElectionViewData {
        ElectionViewData {
            start: self.start@,
            end: self.end@,
            title: self.title@,
            description: self.description@,
            candidates: Seq::new(self.candidates@.len(), |i: int| self.candidates@[i]@),
        }
    }
}

} // verus!
