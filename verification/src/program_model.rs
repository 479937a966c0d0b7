//! Definitions, operations and the symbol table that the parser fills.

use vstd::prelude::*;

verus! {

/// The shape that an identifier is defined as.
#[derive(Clone, Copy, Debug, PartialEq, Eq, Structural)]
pub enum DefinitionType {
    POINT,
    CIRCLE,
    SQUARE,
    NONE,
}

/// The kind of an operation.
#[derive(Clone, Copy, Debug, PartialEq, Eq, Structural)]
pub enum OperationType {
    PRINT,
    CONTAINED,
    INTERSECTS,
    UNDEFINED,
}

/// A definition: for a point its two coordinates, for a circle or a square
/// the identifier of its point and its size.
#[derive(Debug)]
pub struct Definition {
    pub def_type: DefinitionType,
    pub param1: String,
    pub param2: String,
}

/// An operation with the identifiers it names (`param2` is empty for `print`).
#[derive(Debug)]
pub struct Operation {
    pub op_type: OperationType,
    pub param1: String,
    pub param2: String,
}

/// The mathematical model of a [`Definition`].
pub struct DefView {
    pub def_type: DefinitionType,
    pub param1: Seq<char>,
    pub param2: Seq<char>,
}

/// The mathematical model of an [`Operation`].
pub struct OpView {
    pub op_type: OperationType,
    pub param1: Seq<char>,
    pub param2: Seq<char>,
}

impl View for Definition {
    type V = DefView;

    open spec fn view(&self) -> DefView {
        DefView { def_type: self.def_type, param1: self.param1@, param2: self.param2@ }
    }
}

impl View for Operation {
    type V = OpView;

    open spec fn view(&self) -> OpView {
        OpView { op_type: self.op_type, param1: self.param1@, param2: self.param2@ }
    }
}

/// The models of a sequence of operations.
pub open spec fn ops_view(v: Seq<Operation>) -> Seq<OpView> {
    v.map_values(|o: Operation| o@)
}

/// Symbol table: maps each identifier to its latest definition.
pub struct SymbolTable {
    entries: Vec<(String, Definition)>,
}

/// The map that a list of (name, definition) entries stands for: an entry
/// that comes later overrides an earlier one with the same name.
pub open spec fn entries_map(s: Seq<(String, Definition)>) -> Map<Seq<char>, DefView>
    decreases s.len(),
{
    if s.len() == 0 {
        Map::empty()
    } else {
        entries_map(s.drop_last()).insert(s.last().0@, s.last().1@)
    }
}

proof fn lemma_entries_suffix(s: Seq<(String, Definition)>, i: int, k: Seq<char>)
    requires
        0 <= i <= s.len(),
        forall|j: int| i <= j < s.len() ==> #[trigger] s[j].0@ != k,
    ensures
        entries_map(s).dom().contains(k) == entries_map(s.take(i)).dom().contains(k),
        entries_map(s).dom().contains(k) ==> entries_map(s)[k] == entries_map(s.take(i))[k],
    decreases s.len(),
{
    if s.len() == i {
        assert(s.take(i) =~= s);
    } else {
        assert(s.drop_last().take(i) =~= s.take(i));
        assert(s.last().0@ != k);
        lemma_entries_suffix(s.drop_last(), i, k);
    }
}

impl View for SymbolTable {
    type V = Map<Seq<char>, DefView>;

    closed spec fn view(&self) -> Map<Seq<char>, DefView> {
        entries_map(self.entries@)
    }
}

impl SymbolTable {
    /// An empty table.
    pub fn new() -> (t: SymbolTable)
        ensures
            t@ == Map::<Seq<char>, DefView>::empty(),
    {
        SymbolTable { entries: Vec::new() }
    }

    /// Defines `name` as `d`, replacing any earlier definition of it.
    pub fn insert(&mut self, name: String, d: Definition)
        ensures
            final(self)@ == old(self)@.insert(name@, d@),
    {
        let ghost old_entries = self.entries@;
        self.entries.push((name, d));
        assert(self.entries@.drop_last() =~= old_entries);
    }

    /// The definition of `name`, if it has one.
    pub fn get(&self, name: &String) -> (r: Option<&Definition>)
        ensures
            r is Some <==> self@.dom().contains(name@),
            r matches Some(d) ==> d@ == self@[name@],
    {
        let mut i = self.entries.len();
        while i > 0
            invariant
                i <= self.entries@.len(),
                forall|j: int| i <= j < self.entries@.len() ==> #[trigger] self.entries@[j].0@ != name@,
            decreases i,
        {
            if self.entries[i - 1].0.eq(name) {
                proof {
                    let s = self.entries@;
                    lemma_entries_suffix(s, i as int, name@);
                    assert(s.take(i as int).drop_last() =~= s.take(i - 1));
                    assert(s.take(i as int).last() == s[i - 1]);
                }
                return Some(&self.entries[i - 1].1);
            }
            i = i - 1;
        }
        proof {
            lemma_entries_suffix(self.entries@, 0, name@);
        }
        None
    }
}

} // verus!
