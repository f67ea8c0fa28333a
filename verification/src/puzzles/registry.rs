//! The list of puzzles the suite offers.

use vstd::prelude::*;

verus! {

/// The screens the menu leads to.
#[derive(Debug, Clone, Copy, PartialEq, Eq, Hash, Structural)]
pub enum PuzzleId {
    EightPuzzle,
    XorTicTacToe,
    MissionariesCannibals,
    EightQueens,
    About,
}

/// What the menu shows of a puzzle.
#[derive(Debug, Clone)]
pub struct PuzzleDescriptor {
    pub id: PuzzleId,
    pub name: &'static str,
    pub summary: &'static str,
}

/// The menu: a list of descriptors.
#[derive(Debug, Clone)]
pub struct PuzzleRegistry {
    pub descriptors: Vec<PuzzleDescriptor>,
}

/// The first descriptor from `from` on that carries `id`; the length of the
/// list if none does.
pub open spec fn first_with(descriptors: Seq<PuzzleDescriptor>, id: PuzzleId, from: int) -> int
    decreases descriptors.len() - from,
{
    if from >= descriptors.len() {
        descriptors.len() as int
    } else if descriptors[from].id == id {
        from
    } else {
        first_with(descriptors, id, from + 1)
    }
}

/// The menu entries, in order.
pub open spec fn catalogue() -> Seq<(PuzzleId, Seq<char>, Seq<char>)> {
    seq![
        (
            PuzzleId::EightPuzzle,
            "8-Puzzle Solver"@,
            "Slide tiles into place, observe heuristic-driven search stats."@,
        ),
        (
            PuzzleId::XorTicTacToe,
            "XOR Tic-Tac-Toe"@,
            "Play optimally with A* hints in an unusual variant of tic-tac-toe."@,
        ),
        (
            PuzzleId::MissionariesCannibals,
            "Missionaries & Cannibals"@,
            "Get 3 missionaries and 3 cannibals across the river safely using A* search."@,
        ),
        (
            PuzzleId::EightQueens,
            "8 Queens Problem"@,
            "Place 8 queens on a chessboard so none attack each other. Watch A* solve it!"@,
        ),
        (
            PuzzleId::About,
            "About This Program"@,
            "Learn about this AI Puzzle Suite, the A* algorithm, and acknowledgments."@,
        ),
    ]
}

impl Default for PuzzleId {
    fn default() -> (id: Self)
        ensures
            id == PuzzleId::EightPuzzle,
    {
        PuzzleId::EightPuzzle
    }
}

impl Default for PuzzleDescriptor {
    fn default() -> (descriptor: Self)
        ensures
            descriptor.id == PuzzleId::EightPuzzle,
            descriptor.name@ == "8-Puzzle Solver"@,
            descriptor.summary@
                == "Classic sliding puzzle solved with A* and Manhattan heuristic."@,
    {
        Self {
            id: PuzzleId::EightPuzzle,
            name: "8-Puzzle Solver",
            summary: "Classic sliding puzzle solved with A* and Manhattan heuristic.",
        }
    }
}

impl PuzzleRegistry {
    /// The registry lists exactly the catalogue.
    pub open spec fn complete(&self) -> bool {
        &&& self.descriptors@.len() == catalogue().len()
        &&& forall|i: int|
            0 <= i < catalogue().len() ==> {
                &&& (#[trigger] self.descriptors@[i]).id == catalogue()[i].0
                &&& self.descriptors@[i].name@ == catalogue()[i].1
                &&& self.descriptors@[i].summary@ == catalogue()[i].2
            }
    }

    /// The first descriptor that carries `id`.
    pub fn descriptor(&self, id: PuzzleId) -> (found: Option<&PuzzleDescriptor>)
        ensures
            match found {
                Some(descriptor) => {
                    &&& first_with(self.descriptors@, id, 0) < self.descriptors@.len()
                    &&& *descriptor == self.descriptors@[first_with(self.descriptors@, id, 0)]
                    &&& descriptor.id == id
                },
                None => first_with(self.descriptors@, id, 0) == self.descriptors@.len(),
            },
    {
        let mut i: usize = 0;
        while i < self.descriptors.len()
            invariant
                i <= self.descriptors@.len(),
                first_with(self.descriptors@, id, 0) == first_with(self.descriptors@, id, i as int),
            decreases self.descriptors@.len() - i,
        {
            if self.descriptors[i].id == id {
                return Some(&self.descriptors[i]);
            }
            i += 1;
        }
        None
    }

    /// The registry of the five menu entries.
    pub fn initialize() -> (registry: Self)
        ensures
            registry.complete(),
    {
        let mut descriptors: Vec<PuzzleDescriptor> = Vec::new();
        descriptors.push(
            PuzzleDescriptor {
                id: PuzzleId::EightPuzzle,
                name: "8-Puzzle Solver",
                summary: "Slide tiles into place, observe heuristic-driven search stats.",
            },
        );
        descriptors.push(
            PuzzleDescriptor {
                id: PuzzleId::XorTicTacToe,
                name: "XOR Tic-Tac-Toe",
                summary: "Play optimally with A* hints in an unusual variant of tic-tac-toe.",
            },
        );
        descriptors.push(
            PuzzleDescriptor {
                id: PuzzleId::MissionariesCannibals,
                name: "Missionaries & Cannibals",
                summary: "Get 3 missionaries and 3 cannibals across the river safely using A* search.",
            },
        );
        descriptors.push(
            PuzzleDescriptor {
                id: PuzzleId::EightQueens,
                name: "8 Queens Problem",
                summary: "Place 8 queens on a chessboard so none attack each other. Watch A* solve it!",
            },
        );
        descriptors.push(
            PuzzleDescriptor {
                id: PuzzleId::About,
                name: "About This Program",
                summary: "Learn about this AI Puzzle Suite, the A* algorithm, and acknowledgments.",
            },
        );
        Self { descriptors }
    }
}

impl Default for PuzzleRegistry {
    fn default() -> (registry: Self)
        ensures
            registry.complete(),
    {
        Self::initialize()
    }
}

} // verus!
