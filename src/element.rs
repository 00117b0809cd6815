use vstd::prelude::*;
use vstd::string::StrSliceExecFns;

verus! {

/// A parsed tag: its name, its attributes in source order, and its children.
#[derive(Debug)]
pub struct Element {
    pub name: String,
    pub attr: Vec<(String, String)>,
    pub children: Vec<Element>,
}

/// The mathematical value of an [`Element`].
pub ghost struct ElementModel {
    pub name: Seq<char>,
    pub attr: Seq<(Seq<char>, Seq<char>)>,
    pub children: Seq<ElementModel>,
}

pub open spec fn model_of(e: Element) -> ElementModel
    decreases e,
{
    ElementModel {
        name: e.name@,
        attr: e.attr.deep_view(),
        children: Seq::new(
            e.children@.len(),
            |i: int|
                if 0 <= i < e.children@.len() {
                    model_of(e.children@[i])
                } else {
                    arbitrary()
                },
        ),
    }
}

impl DeepView for Element {
    type V = ElementModel;

    open spec fn deep_view(&self) -> ElementModel {
        model_of(*self)
    }
}


/// Whether two texts are the same.
pub(crate) fn same_text(a: &str, b: &str) -> (r: bool)
    ensures
        r == (a@ == b@),
{
    let n = a.unicode_len();
    if n != b.unicode_len() {
        return false;
    }
    let mut i: usize = 0;
    while i < n
        invariant
            n == a@.len(),
            n == b@.len(),
            i <= n,
            forall|j: int| 0 <= j < i ==> a@[j] == b@[j],
        decreases n - i,
    {
        if a.get_char(i) != b.get_char(i) {
            return false;
        }
        i += 1;
    }
    assert(a@ =~= b@);
    true
}

impl PartialEq for Element {
    fn eq(&self, other: &Element) -> (r: bool)
        decreases self,
    {
        if !same_text(self.name.as_str(), other.name.as_str()) {
            return false;
        }
        let n = self.attr.len();
        if n != other.attr.len() {
            assert(self.deep_view().attr.len() != other.deep_view().attr.len());
            return false;
        }
        let mut i: usize = 0;
        while i < n
            invariant
                n == self.attr@.len(),
                n == other.attr@.len(),
                i <= n,
                forall|j: int|
                    0 <= j < i ==> #[trigger] self.attr.deep_view()[j] == other.attr.deep_view()[j],
            decreases n - i,
        {
            let (k1, v1) = &self.attr[i];
            let (k2, v2) = &other.attr[i];
            if !same_text(k1.as_str(), k2.as_str()) || !same_text(v1.as_str(), v2.as_str()) {
                assert(self.attr.deep_view()[i as int] != other.attr.deep_view()[i as int]);
                return false;
            }
            i += 1;
        }
        assert(self.attr.deep_view() =~= other.attr.deep_view());
        let m = self.children.len();
        if m != other.children.len() {
            assert(self.deep_view().children.len() != other.deep_view().children.len());
            return false;
        }
        let mut i: usize = 0;
        while i < m
            invariant
                m == self.children@.len(),
                m == other.children@.len(),
                i <= m,
                forall|j: int|
                    0 <= j < i ==> #[trigger] self.deep_view().children[j]
                        == other.deep_view().children[j],
            decreases m - i,
        {
            if !self.children[i].eq(&other.children[i]) {
                assert(self.deep_view().children[i as int] != other.deep_view().children[i as int]);
                return false;
            }
            i += 1;
        }
        assert(self.deep_view().children =~= other.deep_view().children);
        true
    }
}

impl vstd::std_specs::cmp::PartialEqSpecImpl for Element {
    open spec fn obeys_eq_spec() -> bool {
        true
    }

    open spec fn eq_spec(&self, other: &Element) -> bool {
        self.deep_view() == other.deep_view()
    }
}

} // verus!
