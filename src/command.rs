use crate::element::{Element, ElementModel};
use vstd::prelude::*;

verus! {

/// The names of the elements, in order; attributes and children are dropped.
pub open spec fn flatten(elements: Seq<ElementModel>) -> Seq<Seq<char>> {
    elements.map_values(|e: ElementModel| e.name)
}

/// The argument list a command line stands for: the name of each top-level
/// element, in order.
pub fn elements_to_args(elements: &[Element]) -> (r: Vec<String>)
    ensures
        r.deep_view() == flatten(elements.deep_view()),
{
    let mut out: Vec<String> = Vec::new();
    let mut i: usize = 0;
    while i < elements.len()
        invariant
            i <= elements@.len(),
            out@.len() == i,
            forall|j: int| 0 <= j < i ==> (#[trigger] out@[j])@ == elements@[j].name@,
        decreases elements@.len() - i,
    {
        out.push(elements[i].name.clone());
        i += 1;
    }
    assert(out.deep_view() =~= flatten(elements.deep_view()));
    out
}

/// Flattening forgets attributes: two different element lists can give the
/// same arguments, so no operation can rebuild elements from arguments.
pub proof fn lemma_flatten_is_lossy()
    ensures
        exists|a: Seq<ElementModel>, b: Seq<ElementModel>| a != b && flatten(a) == flatten(b),
{
    let plain = ElementModel { name: seq!['l', 's'], attr: seq![], children: seq![] };
    let with_attr = ElementModel {
        name: seq!['l', 's'],
        attr: seq![(seq!['k'], seq!['v'])],
        children: seq![],
    };
    let a = seq![plain];
    let b = seq![with_attr];
    assert(a[0].attr.len() != b[0].attr.len());
    assert(flatten(a) =~= flatten(b));
}

} // verus!
