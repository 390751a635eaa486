//! The structural role of a trie node, and the fixed tables of legal role changes.

use crate::text::text_equal;
use vstd::prelude::*;

verus! {

/// The role a trie node held at the moment its hash was taken.
#[derive(Clone, Copy, Debug, PartialEq, Eq, PartialOrd, Hash, Structural)]
pub enum HashType {
    /// Empty node.
    Empty,
    /// Middle node.
    Middle,
    /// Leaf node which is extended to a middle node by an insert.
    LeafExt,
    /// Leaf node extended by an insert, at the last node of the new path.
    LeafExtFinal,
    /// Leaf node.
    Leaf,
}

/// The roles with which an operation may open. Every role is admitted.
pub open spec fn opening_types() -> Set<HashType> {
    set![
        HashType::Empty,
        HashType::Leaf,
        HashType::Middle,
        HashType::LeafExt,
        HashType::LeafExtFinal,
    ]
}

/// The ordered pairs `(parent role, child role)` that may follow one another
/// on the way down one update path.
pub open spec fn chain_pairs() -> Set<(HashType, HashType)> {
    set![
        (HashType::Middle, HashType::Middle),
        (HashType::Middle, HashType::Empty),
        (HashType::Middle, HashType::Leaf),
        (HashType::Middle, HashType::LeafExt),
        (HashType::Middle, HashType::LeafExtFinal),
        (HashType::LeafExt, HashType::LeafExt),
        (HashType::LeafExt, HashType::LeafExtFinal),
        (HashType::LeafExtFinal, HashType::Empty),
        (HashType::LeafExtFinal, HashType::Leaf),
    ]
}

/// The ordered pairs `(role before, role after)` that one node may go through
/// in a single update.
pub open spec fn transition_pairs() -> Set<(HashType, HashType)> {
    set![
        (HashType::Empty, HashType::Leaf),
        (HashType::Leaf, HashType::Empty),
        (HashType::Leaf, HashType::Leaf),
        (HashType::Middle, HashType::LeafExtFinal),
        (HashType::LeafExtFinal, HashType::Middle),
        (HashType::Middle, HashType::LeafExt),
        (HashType::LeafExt, HashType::Middle),
        (HashType::Middle, HashType::Middle),
    ]
}

/// The roles whose rows route through a single path bit.
pub open spec fn branching_types() -> Set<HashType> {
    set![HashType::Middle, HashType::LeafExt, HashType::LeafExtFinal]
}

/// The role that a token names, if it names one.
pub open spec fn parse_token(text: Seq<char>) -> Option<HashType> {
    if text == HashType::Empty.token_text() {
        Some(HashType::Empty)
    } else if text == HashType::Middle.token_text() {
        Some(HashType::Middle)
    } else if text == HashType::LeafExt.token_text() {
        Some(HashType::LeafExt)
    } else if text == HashType::LeafExtFinal.token_text() {
        Some(HashType::LeafExtFinal)
    } else if text == HashType::Leaf.token_text() {
        Some(HashType::Leaf)
    } else {
        None
    }
}

impl HashType {
    /// The token that names this role in a written row.
    pub open spec fn token_text(self) -> Seq<char> {
        match self {
            HashType::Empty => seq!['e', 'm', 'p', 't', 'y'],
            HashType::Middle => seq!['m', 'i', 'd', 'd', 'l', 'e'],
            HashType::LeafExt => seq!['l', 'e', 'a', 'f', 'E', 'x', 't'],
            HashType::LeafExtFinal => seq!['l', 'e', 'a', 'f', 'E', 'x', 't', 'F', 'i', 'n', 'a', 'l'],
            HashType::Leaf => seq!['l', 'e', 'a', 'f'],
        }
    }

    /// The token that names this role in a written row.
    pub fn token(self) -> (text: &'static str)
        ensures
            text@ == self.token_text(),
    {
        proof {
            lemma_token_literals();
        }
        match self {
            HashType::Empty => "empty",
            HashType::Middle => "middle",
            HashType::LeafExt => "leafExt",
            HashType::LeafExtFinal => "leafExtFinal",
            HashType::Leaf => "leaf",
        }
    }

    /// The role that `text` names, if it is one of the five tokens.
    pub fn from_token(text: &str) -> (role: Option<HashType>)
        ensures
            role == parse_token(text@),
    {
        proof {
            lemma_token_literals();
        }
        if text_equal(text, "empty") {
            Some(HashType::Empty)
        } else if text_equal(text, "middle") {
            Some(HashType::Middle)
        } else if text_equal(text, "leafExt") {
            Some(HashType::LeafExt)
        } else if text_equal(text, "leafExtFinal") {
            Some(HashType::LeafExtFinal)
        } else if text_equal(text, "leaf") {
            Some(HashType::Leaf)
        } else {
            None
        }
    }

    /// Whether an operation may open with this role.
    pub fn may_open(self) -> (ok: bool)
        ensures
            ok == opening_types().contains(self),
    {
        match self {
            HashType::Empty => true,
            HashType::Leaf => true,
            HashType::Middle => true,
            HashType::LeafExt => true,
            HashType::LeafExtFinal => true,
        }
    }

    /// Whether a node of role `child` may follow a node of this role on one path.
    pub fn may_precede(self, child: HashType) -> (ok: bool)
        ensures
            ok == chain_pairs().contains((self, child)),
    {
        match (self, child) {
            (HashType::Middle, _) => true,
            (HashType::LeafExt, HashType::LeafExt) => true,
            (HashType::LeafExt, HashType::LeafExtFinal) => true,
            (HashType::LeafExtFinal, HashType::Empty) => true,
            (HashType::LeafExtFinal, HashType::Leaf) => true,
            _ => false,
        }
    }

    /// Whether one update may turn a node of this role into one of role `after`.
    pub fn may_become(self, after: HashType) -> (ok: bool)
        ensures
            ok == transition_pairs().contains((self, after)),
    {
        match (self, after) {
            (HashType::Empty, HashType::Leaf) => true,
            (HashType::Leaf, HashType::Empty) => true,
            (HashType::Leaf, HashType::Leaf) => true,
            (HashType::Middle, HashType::LeafExtFinal) => true,
            (HashType::LeafExtFinal, HashType::Middle) => true,
            (HashType::Middle, HashType::LeafExt) => true,
            (HashType::LeafExt, HashType::Middle) => true,
            (HashType::Middle, HashType::Middle) => true,
            _ => false,
        }
    }

    /// Whether rows of this role route through a single path bit.
    pub fn is_branching(self) -> (ok: bool)
        ensures
            ok == branching_types().contains(self),
    {
        match self {
            HashType::Middle => true,
            HashType::LeafExt => true,
            HashType::LeafExtFinal => true,
            _ => false,
        }
    }
}

/// The five token literals spell the five tokens.
proof fn lemma_token_literals()
    ensures
        "empty"@ == HashType::Empty.token_text(),
        "middle"@ == HashType::Middle.token_text(),
        "leafExt"@ == HashType::LeafExt.token_text(),
        "leafExtFinal"@ == HashType::LeafExtFinal.token_text(),
        "leaf"@ == HashType::Leaf.token_text(),
{
    reveal_strlit("empty");
    reveal_strlit("middle");
    reveal_strlit("leafExt");
    reveal_strlit("leafExtFinal");
    reveal_strlit("leaf");
    assert("empty"@ =~= HashType::Empty.token_text());
    assert("middle"@ =~= HashType::Middle.token_text());
    assert("leafExt"@ =~= HashType::LeafExt.token_text());
    assert("leafExtFinal"@ =~= HashType::LeafExtFinal.token_text());
    assert("leaf"@ =~= HashType::Leaf.token_text());
}

/// A role's token names that role and no other.
pub proof fn lemma_token_round_trip(role: HashType)
    ensures
        parse_token(role.token_text()) == Some(role),
{
    let text = role.token_text();
    match role {
        HashType::Empty => {},
        HashType::Middle => {
            assert(text[0] != HashType::Empty.token_text()[0]);
        },
        HashType::LeafExt => {
            assert(text[0] != HashType::Empty.token_text()[0]);
            assert(text[0] != HashType::Middle.token_text()[0]);
        },
        HashType::LeafExtFinal => {
            assert(text[0] != HashType::Empty.token_text()[0]);
            assert(text[0] != HashType::Middle.token_text()[0]);
            assert(text.len() != HashType::LeafExt.token_text().len());
        },
        HashType::Leaf => {
            assert(text[0] != HashType::Empty.token_text()[0]);
            assert(text[0] != HashType::Middle.token_text()[0]);
            assert(text.len() != HashType::LeafExt.token_text().len());
            assert(text.len() != HashType::LeafExtFinal.token_text().len());
        },
    }
}

/// Any role may open an operation.
pub proof fn lemma_every_type_opens(t: HashType)
    ensures
        opening_types().contains(t),
{
}

} // verus!
