//! Free-form data: what an open bag of configuration fields holds, and what a
//! template is rendered against.

use vstd::prelude::*;

verus! {

/// A free-form value.
#[derive(Debug, PartialEq, Eq)]
pub enum Datum {
    /// Nothing: an absent field.
    Null,
    Bool(bool),
    Int(i64),
    Uint(u64),
    Text(String),
    List(Vec<Datum>),
    /// Named fields, in the order given.
    Table(Vec<(String, Datum)>),
    /// A value of a kind that nothing here reads, kept as its text.
    Other(String),
}

/// The mathematical form of a [`Datum`].
pub enum Tree {
    Null,
    Bool(bool),
    Int(i64),
    Uint(u64),
    Text(Seq<char>),
    List(Seq<Tree>),
    Table(Seq<(Seq<char>, Tree)>),
    Other(Seq<char>),
}

/// The tree that `v` stands for.
pub open spec fn tree_of(v: Datum) -> Tree
    decreases v,
{
    match v {
        Datum::Null => Tree::Null,
        Datum::Bool(b) => Tree::Bool(b),
        Datum::Int(n) => Tree::Int(n),
        Datum::Uint(n) => Tree::Uint(n),
        Datum::Text(s) => Tree::Text(s@),
        Datum::List(items) => Tree::List(
            Seq::new(
                items@.len(),
                |i: int|
                    if 0 <= i < items@.len() {
                        tree_of(items@[i])
                    } else {
                        Tree::Null
                    },
            ),
        ),
        Datum::Table(fields) => Tree::Table(
            Seq::new(
                fields@.len(),
                |i: int|
                    if 0 <= i < fields@.len() {
                        (fields@[i].0@, tree_of(fields@[i].1))
                    } else {
                        (Seq::empty(), Tree::Null)
                    },
            ),
        ),
        Datum::Other(s) => Tree::Other(s@),
    }
}

/// The fields of a table as contracts see them.
pub open spec fn table_of(fields: Seq<(String, Datum)>) -> Seq<(Seq<char>, Tree)> {
    Seq::new(fields.len(), |i: int| (fields[i].0@, tree_of(fields[i].1)))
}

/// The items of a list as contracts see them.
pub open spec fn list_of(items: Seq<Datum>) -> Seq<Tree> {
    Seq::new(items.len(), |i: int| tree_of(items[i]))
}

/// A table stands for its fields, a list for its items.
pub proof fn lemma_tree_of_parts(v: Datum)
    ensures
        v matches Datum::Table(fields) ==> tree_of(v) == Tree::Table(table_of(fields@)),
        v matches Datum::List(items) ==> tree_of(v) == Tree::List(list_of(items@)),
{
    match v {
        Datum::Table(fields) => {
            assert(tree_of(v)->Table_0 =~= table_of(fields@));
        },
        Datum::List(items) => {
            assert(tree_of(v)->List_0 =~= list_of(items@));
        },
        _ => {},
    }
}

impl DeepView for Datum {
    type V = Tree;

    open spec fn deep_view(&self) -> Tree {
        tree_of(*self)
    }
}

impl View for Datum {
    type V = Tree;

    open spec fn view(&self) -> Tree {
        tree_of(*self)
    }
}

impl Clone for Datum {
    fn clone(&self) -> (r: Datum)
        ensures
            r@ == self@,
    {
        self.duplicate()
    }
}

impl Datum {
    /// The text, where the value is a text.
    pub fn as_str(&self) -> (r: Option<&String>)
        ensures
            match self@ {
                Tree::Text(t) => r is Some && r->0@ == t,
                _ => r is None,
            },
    {
        match self {
            Datum::Text(s) => Some(s),
            _ => None,
        }
    }

    /// The number, where the value is a signed integer.
    pub fn as_integer(&self) -> (r: Option<i64>)
        ensures
            match self@ {
                Tree::Int(n) => r == Some(n),
                _ => r is None,
            },
    {
        match self {
            Datum::Int(n) => Some(*n),
            _ => None,
        }
    }

    /// The fields, where the value is a table.
    pub fn as_table(&self) -> (r: Option<&Vec<(String, Datum)>>)
        ensures
            match self@ {
                Tree::Table(t) => r is Some && Tree::Table(table_of(r->0@)) == self@,
                _ => r is None,
            },
    {
        proof {
            lemma_tree_of_parts(*self);
        }
        match self {
            Datum::Table(fields) => Some(fields),
            _ => None,
        }
    }

    /// A copy of the value.
    pub fn duplicate(&self) -> (r: Datum)
        ensures
            r@ == self@,
        decreases self,
    {
        match self {
            Datum::Null => Datum::Null,
            Datum::Bool(b) => Datum::Bool(*b),
            Datum::Int(n) => Datum::Int(*n),
            Datum::Uint(n) => Datum::Uint(*n),
            Datum::Text(s) => Datum::Text(s.clone()),
            Datum::List(items) => {
                let mut out: Vec<Datum> = Vec::new();
                let mut i: usize = 0;
                while i < items.len()
                    invariant
                        *self == Datum::List(*items),
                        i <= items.len(),
                        out@.len() == i,
                        forall|j: int| 0 <= j < i ==> tree_of(#[trigger] out@[j]) == tree_of(items@[j]),
                    decreases items.len() - i,
                {
                    proof {
                        vstd::std_specs::vec::axiom_vec_index_decreases(*items, i as int);
                        assert(self->List_0 == *items);
                    }
                    out.push(items[i].duplicate());
                    i += 1;
                }
                let r = Datum::List(out);
                assert(r@->List_0 =~= self@->List_0);
                r
            },
            Datum::Table(fields) => {
                let mut out: Vec<(String, Datum)> = Vec::new();
                let mut i: usize = 0;
                while i < fields.len()
                    invariant
                        *self == Datum::Table(*fields),
                        i <= fields.len(),
                        out@.len() == i,
                        forall|j: int|
                            0 <= j < i ==> (#[trigger] out@[j]).0@ == fields@[j].0@ && tree_of(
                                out@[j].1,
                            ) == tree_of(fields@[j].1),
                    decreases fields.len() - i,
                {
                    proof {
                        vstd::std_specs::vec::axiom_vec_index_decreases(*fields, i as int);
                        assert(self->Table_0 == *fields);
                    }
                    out.push((fields[i].0.clone(), fields[i].1.duplicate()));
                    i += 1;
                }
                let r = Datum::Table(out);
                assert(r@->Table_0 =~= self@->Table_0);
                r
            },
            Datum::Other(s) => Datum::Other(s.clone()),
        }
    }
}

} // verus!
