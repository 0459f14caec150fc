//! The error aggregator: a fixed-domain mapping from report sections to at
//! most one error each, letting independent checks run to completion and
//! report together.  Inserting into an already-populated section overwrites
//! it (last wins).

use vstd::prelude::*;

verus! {

/// The closed set of report sections.
#[derive(Debug, Clone, Copy, PartialEq, Eq, Hash, Structural)]
pub enum Section {
    Grid,
    AcrossClues,
    DownClues,
    Puzzle,
    Solution,
    CluesAcross,
    CluesDown,
}

impl Section {
    /// The section's name as it appears in an error report.
    pub open spec fn spec_name(&self) -> Seq<char> {
        match self {
            Section::Grid => "grid"@,
            Section::AcrossClues => "across_clues"@,
            Section::DownClues => "down_clues"@,
            Section::Puzzle => "puzzle"@,
            Section::Solution => "solution"@,
            Section::CluesAcross => "clues.Across"@,
            Section::CluesDown => "clues.Down"@,
        }
    }

    pub fn name(&self) -> (r: String)
        ensures
            r@ == self.spec_name(),
    {
        match self {
            Section::Grid => String::from_str("grid"),
            Section::AcrossClues => String::from_str("across_clues"),
            Section::DownClues => String::from_str("down_clues"),
            Section::Puzzle => String::from_str("puzzle"),
            Section::Solution => String::from_str("solution"),
            Section::CluesAcross => String::from_str("clues.Across"),
            Section::CluesDown => String::from_str("clues.Down"),
        }
    }
}

/// At most one error per section; its view is the section-to-error map.
#[derive(Debug)]
pub struct MultiError<E> {
    grid: Option<E>,
    across_clues: Option<E>,
    down_clues: Option<E>,
    puzzle: Option<E>,
    solution: Option<E>,
    clues_across: Option<E>,
    clues_down: Option<E>,
}

impl<E> View for MultiError<E> {
    type V = Map<Section, E>;

    closed spec fn view(&self) -> Map<Section, E> {
        let m = Map::<Section, E>::empty();
        let m = if self.grid is Some {
            m.insert(Section::Grid, self.grid->0)
        } else {
            m
        };
        let m = if self.across_clues is Some {
            m.insert(Section::AcrossClues, self.across_clues->0)
        } else {
            m
        };
        let m = if self.down_clues is Some {
            m.insert(Section::DownClues, self.down_clues->0)
        } else {
            m
        };
        let m = if self.puzzle is Some {
            m.insert(Section::Puzzle, self.puzzle->0)
        } else {
            m
        };
        let m = if self.solution is Some {
            m.insert(Section::Solution, self.solution->0)
        } else {
            m
        };
        let m = if self.clues_across is Some {
            m.insert(Section::CluesAcross, self.clues_across->0)
        } else {
            m
        };
        let m = if self.clues_down is Some {
            m.insert(Section::CluesDown, self.clues_down->0)
        } else {
            m
        };
        m
    }
}

impl<E> MultiError<E> {
    pub fn new() -> (r: Self)
        ensures
            r@ == Map::<Section, E>::empty(),
    {
        let r = MultiError {
            grid: None,
            across_clues: None,
            down_clues: None,
            puzzle: None,
            solution: None,
            clues_across: None,
            clues_down: None,
        };
        proof {
            assert(r@ =~= Map::<Section, E>::empty());
        }
        r
    }

    pub fn is_empty(&self) -> (r: bool)
        ensures
            r == (self@ == Map::<Section, E>::empty()),
    {
        let r = self.grid.is_none() && self.across_clues.is_none() && self.down_clues.is_none()
            && self.puzzle.is_none() && self.solution.is_none() && self.clues_across.is_none()
            && self.clues_down.is_none();
        proof {
            if r {
                assert(self@ =~= Map::<Section, E>::empty());
            } else {
                assert(self@.dom() != Set::<Section>::empty()) by {
                    if self.grid is Some {
                        assert(self@.dom().contains(Section::Grid));
                    } else if self.across_clues is Some {
                        assert(self@.dom().contains(Section::AcrossClues));
                    } else if self.down_clues is Some {
                        assert(self@.dom().contains(Section::DownClues));
                    } else if self.puzzle is Some {
                        assert(self@.dom().contains(Section::Puzzle));
                    } else if self.solution is Some {
                        assert(self@.dom().contains(Section::Solution));
                    } else if self.clues_across is Some {
                        assert(self@.dom().contains(Section::CluesAcross));
                    } else {
                        assert(self@.dom().contains(Section::CluesDown));
                    }
                }
            }
        }
        r
    }

    /// Record an error for a section, overwriting any earlier one there.
    pub fn push(&mut self, section: Section, err: E)
        ensures
            final(self)@ == old(self)@.insert(section, err),
    {
        match section {
            Section::Grid => self.grid = Some(err),
            Section::AcrossClues => self.across_clues = Some(err),
            Section::DownClues => self.down_clues = Some(err),
            Section::Puzzle => self.puzzle = Some(err),
            Section::Solution => self.solution = Some(err),
            Section::CluesAcross => self.clues_across = Some(err),
            Section::CluesDown => self.clues_down = Some(err),
        }
        proof {
            assert(self@ =~= old(self)@.insert(section, err));
        }
    }

    /// The recorded errors as (section name, error) pairs, in the fixed
    /// section order.
    pub open spec fn spec_error_list(&self) -> Seq<(Seq<char>, E)> {
        let s = Seq::<(Seq<char>, E)>::empty();
        let s = if self@.contains_key(Section::Grid) {
            s.push((Section::Grid.spec_name(), self@[Section::Grid]))
        } else {
            s
        };
        let s = if self@.contains_key(Section::AcrossClues) {
            s.push((Section::AcrossClues.spec_name(), self@[Section::AcrossClues]))
        } else {
            s
        };
        let s = if self@.contains_key(Section::DownClues) {
            s.push((Section::DownClues.spec_name(), self@[Section::DownClues]))
        } else {
            s
        };
        let s = if self@.contains_key(Section::Puzzle) {
            s.push((Section::Puzzle.spec_name(), self@[Section::Puzzle]))
        } else {
            s
        };
        let s = if self@.contains_key(Section::Solution) {
            s.push((Section::Solution.spec_name(), self@[Section::Solution]))
        } else {
            s
        };
        let s = if self@.contains_key(Section::CluesAcross) {
            s.push((Section::CluesAcross.spec_name(), self@[Section::CluesAcross]))
        } else {
            s
        };
        let s = if self@.contains_key(Section::CluesDown) {
            s.push((Section::CluesDown.spec_name(), self@[Section::CluesDown]))
        } else {
            s
        };
        s
    }

    /// Consume the aggregator and hand its contents out as a list of
    /// (section name, error) pairs.
    pub fn into_error_map(self) -> (r: Vec<(String, E)>)
        ensures
            r@.map_values(|p: (String, E)| (p.0@, p.1)) == self.spec_error_list(),
    {
        let ghost expected = self.spec_error_list();
        let MultiError {
            grid,
            across_clues,
            down_clues,
            puzzle,
            solution,
            clues_across,
            clues_down,
        } = self;
        let mut r: Vec<(String, E)> = Vec::new();
        if let Some(e) = grid {
            r.push((Section::Grid.name(), e));
        }
        if let Some(e) = across_clues {
            r.push((Section::AcrossClues.name(), e));
        }
        if let Some(e) = down_clues {
            r.push((Section::DownClues.name(), e));
        }
        if let Some(e) = puzzle {
            r.push((Section::Puzzle.name(), e));
        }
        if let Some(e) = solution {
            r.push((Section::Solution.name(), e));
        }
        if let Some(e) = clues_across {
            r.push((Section::CluesAcross.name(), e));
        }
        if let Some(e) = clues_down {
            r.push((Section::CluesDown.name(), e));
        }
        proof {
            assert(r@.map_values(|p: (String, E)| (p.0@, p.1)) =~= expected);
        }
        r
    }
}

} // verus!
