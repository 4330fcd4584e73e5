//! A structural document tree: the manifest model that the transformers walk.
//!
//! A parsed manifest is a tree of scalars, lists and dictionaries. Dictionary
//! entries keep their document order, and duplicate keys are kept as they
//! appeared, so a transformed document serializes in a stable shape.

use vstd::prelude::*;

verus! {

/// One node of a structured manifest document.
pub enum Doc {
    /// The null scalar.
    Null,
    /// A boolean scalar.
    Bool(bool),
    /// A numeric scalar, kept as its decimal text.
    Num(String),
    /// A string scalar.
    Str(String),
    /// A sequence of nodes.
    List(Vec<Doc>),
    /// A mapping, as ordered key/value pairs.
    Dict(Vec<(Doc, Doc)>),
}

/// The mathematical shape of a document node.
pub enum DocV {
    Null,
    Bool(bool),
    Num(Seq<char>),
    Str(Seq<char>),
    List(Seq<DocV>),
    Dict(Seq<(DocV, DocV)>),
}

impl View for Doc {
    type V = DocV;

    open spec fn view(&self) -> DocV
        decreases self,
    {
        match self {
            Doc::Null => DocV::Null,
            Doc::Bool(b) => DocV::Bool(*b),
            Doc::Num(s) => DocV::Num(s@),
            Doc::Str(s) => DocV::Str(s@),
            Doc::List(items) => DocV::List(view_list(items@)),
            Doc::Dict(entries) => DocV::Dict(view_entries(entries@)),
        }
    }
}

pub open spec fn view_list(items: Seq<Doc>) -> Seq<DocV>
    decreases items,
{
    if items.len() == 0 {
        Seq::empty()
    } else {
        seq![items[0]@] + view_list(items.drop_first())
    }
}

pub open spec fn view_entries(entries: Seq<(Doc, Doc)>) -> Seq<(DocV, DocV)>
    decreases entries,
{
    if entries.len() == 0 {
        Seq::empty()
    } else {
        seq![(entries[0].0@, entries[0].1@)] + view_entries(entries.drop_first())
    }
}

/// `view_list` is the element-wise view.
pub proof fn lemma_view_list_props(items: Seq<Doc>)
    ensures
        view_list(items).len() == items.len(),
        forall|i: int| 0 <= i < items.len() ==> #[trigger] view_list(items)[i] == items[i]@,
    decreases items.len(),
{
    if items.len() > 0 {
        lemma_view_list_props(items.drop_first());
        assert(view_list(items) == seq![items[0]@] + view_list(items.drop_first()));
        assert(view_list(items).len() == items.len());
        assert(forall|i: int| 1 <= i < items.len() ==> items[i] == items.drop_first()[i - 1]);
        assert(forall|i: int|
            1 <= i < items.len() ==> #[trigger] view_list(items)[i] == view_list(
                items.drop_first(),
            )[i - 1]);
    }
}

/// `view_entries` is the pair-wise view.
pub proof fn lemma_view_entries_props(entries: Seq<(Doc, Doc)>)
    ensures
        view_entries(entries).len() == entries.len(),
        forall|i: int|
            0 <= i < entries.len() ==> #[trigger] view_entries(entries)[i] == (
            entries[i].0@,
            entries[i].1@,
            ),
    decreases entries.len(),
{
    if entries.len() > 0 {
        lemma_view_entries_props(entries.drop_first());
        assert(view_entries(entries) == seq![(entries[0].0@, entries[0].1@)] + view_entries(
            entries.drop_first(),
        ));
        assert(view_entries(entries).len() == entries.len());
        assert(forall|i: int|
            1 <= i < entries.len() ==> entries[i] == entries.drop_first()[i - 1]);
        assert(forall|i: int|
            1 <= i < entries.len() ==> #[trigger] view_entries(entries)[i] == view_entries(
                entries.drop_first(),
            )[i - 1]);
    }
}

impl Doc {
    /// Whether this node is the string scalar `lit`.
    pub fn is_str(&self, lit: &str) -> (r: bool)
        ensures
            r == (self@ == DocV::Str(lit@)),
    {
        match self {
            Doc::Str(s) => crate::strings::str_eq(s.as_str(), lit),
            _ => false,
        }
    }

    /// A structurally equal copy of this node.
    #[verifier::loop_isolation(false)]
    pub fn duplicate(&self) -> (r: Doc)
        ensures
            r@ == self@,
        decreases self,
    {
        match self {
            Doc::Null => Doc::Null,
            Doc::Bool(b) => Doc::Bool(*b),
            Doc::Num(s) => Doc::Num(s.clone()),
            Doc::Str(s) => Doc::Str(s.clone()),
            Doc::List(items) => {
                let mut out: Vec<Doc> = Vec::new();
                let n = items.len();
                let mut i: usize = 0;
                while i < n
                    invariant
                        0 <= i <= n,
                        n == items.len(),
                        out.len() == i,
                        forall|j: int| 0 <= j < i ==> #[trigger] out@[j]@ == items@[j]@,
                    decreases n - i,
                {
                    proof {
                        assert(*items == self->List_0);
                        assert(decreases_to!(*self => self->List_0));
                        assert(decreases_to!(*items => items@));
                        assert(decreases_to!(items@ => items@[i as int]));
                    }
                    let copy = items[i].duplicate();
                    out.push(copy);
                    i += 1;
                }
                proof {
                    lemma_view_list_props(out@);
                    lemma_view_list_props(items@);
                    assert(view_list(out@) =~= view_list(items@));
                }
                Doc::List(out)
            },
            Doc::Dict(entries) => {
                let mut out: Vec<(Doc, Doc)> = Vec::new();
                let n = entries.len();
                let mut i: usize = 0;
                while i < n
                    invariant
                        0 <= i <= n,
                        n == entries.len(),
                        out.len() == i,
                        forall|j: int|
                            0 <= j < i ==> #[trigger] out@[j].0@ == entries@[j].0@ && out@[j].1@
                                == entries@[j].1@,
                    decreases n - i,
                {
                    proof {
                        assert(*entries == self->Dict_0);
                        assert(decreases_to!(*self => self->Dict_0));
                        assert(decreases_to!(*entries => entries@));
                        assert(decreases_to!(entries@ => entries@[i as int]));
                        assert(decreases_to!(entries@[i as int] => entries@[i as int].0));
                        assert(decreases_to!(entries@[i as int] => entries@[i as int].1));
                    }
                    let k = entries[i].0.duplicate();
                    let v = entries[i].1.duplicate();
                    out.push((k, v));
                    i += 1;
                }
                proof {
                    lemma_view_entries_props(out@);
                    lemma_view_entries_props(entries@);
                    assert(view_entries(out@) =~= view_entries(entries@));
                }
                Doc::Dict(out)
            },
        }
    }
}

} // verus!
