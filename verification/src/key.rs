//! Hierarchical dotted identifiers of the nodes of an expanded graph.

use vstd::prelude::*;
use vstd::string::StringExecFns;

verus! {

/// The dotted path obtained by appending `segment` to `base`.
pub open spec fn joined(base: Seq<char>, segment: Seq<char>) -> Seq<char> {
    base + seq!['.'] + segment
}

/// The character of one decimal digit.
pub open spec fn digit(d: nat) -> char {
    if d == 0 {
        '0'
    } else if d == 1 {
        '1'
    } else if d == 2 {
        '2'
    } else if d == 3 {
        '3'
    } else if d == 4 {
        '4'
    } else if d == 5 {
        '5'
    } else if d == 6 {
        '6'
    } else if d == 7 {
        '7'
    } else if d == 8 {
        '8'
    } else {
        '9'
    }
}

/// The decimal notation of `n`, without sign or leading zeros.
pub open spec fn decimal(n: nat) -> Seq<char>
    decreases n,
{
    if n < 10 {
        seq![digit(n)]
    } else {
        decimal(n / 10).push(digit(n % 10))
    }
}

/// `usize::to_string` of std: the `Display` form of an unsigned integer,
/// which is its decimal notation. Believed, not proved.
#[verifier::external_body]
fn index_text(index: usize) -> (text: String)
    ensures
        text@ == decimal(index as nat),
{
    index.to_string()
}

/// Identifier of a component; two keys are the same when their dotted paths are.
#[derive(Debug, Eq, Hash)]
pub struct ComponentKey {
    id: String,
}

impl View for ComponentKey {
    type V = Seq<char>;

    open spec fn view(&self) -> Seq<char> {
        self.path()
    }
}

impl PartialEq for ComponentKey {
    /// Two keys are equal when their paths are.
    fn eq(&self, other: &Self) -> (same: bool) {
        self.id == other.id
    }
}

impl vstd::std_specs::cmp::PartialEqSpecImpl for ComponentKey {
    open spec fn obeys_eq_spec() -> bool {
        true
    }

    open spec fn eq_spec(&self, other: &Self) -> bool {
        self@ == other@
    }
}

impl Clone for ComponentKey {
    fn clone(&self) -> (key: Self)
        ensures
            key@ == self@,
    {
        ComponentKey { id: self.id.clone() }
    }
}

impl ComponentKey {
    /// The full dotted path.
    pub closed spec fn path(&self) -> Seq<char> {
        self.id@
    }

    /// The key whose path is `id`.
    pub fn from(id: &str) -> (key: ComponentKey)
        ensures
            key@ == id@,
    {
        ComponentKey { id: String::from_str(id) }
    }

    /// The full dotted path.
    pub fn id(&self) -> (id: &str)
        ensures
            id@ == self@,
    {
        self.id.as_str()
    }

    /// The key one level below this one, named by `segment`.
    pub fn join(&self, segment: &str) -> (key: ComponentKey)
        ensures
            key@ == joined(self@, segment@),
    {
        proof {
            reveal_strlit(".");
            assert("."@ =~= seq!['.']);
        }
        let id = self.id.clone().concat(".").concat(segment);
        ComponentKey { id }
    }

    /// The key one level below this one, named by a position.
    pub fn join_index(&self, index: usize) -> (key: ComponentKey)
        ensures
            key@ == joined(self@, decimal(index as nat)),
    {
        let text = index_text(index);
        self.join(text.as_str())
    }
}

} // verus!
