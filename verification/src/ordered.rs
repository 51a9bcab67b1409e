use vstd::prelude::*;

verus! {

/// `items` rises by `less`: each item comes before every later one.
pub open spec fn rises<T>(items: Seq<T>, less: spec_fn(T, T) -> bool) -> bool {
    forall|i: int, j: int|
        0 <= i < j < items.len() ==> less(#[trigger] items[i], #[trigger] items[j])
}

/// An item that every item of a rising sequence comes before can stand at its end:
/// the longer sequence rises too, and holds the items of the shorter one and the new
/// item, and no others.
pub proof fn lemma_push_keeps_order<T>(items: Seq<T>, last: T, less: spec_fn(T, T) -> bool)
    requires
        rises(items, less),
        forall|c: T| items.contains(c) ==> less(c, last),
    ensures
        rises(items.push(last), less),
        forall|c: T| #[trigger] items.push(last).contains(c) <==> items.contains(c) || c == last,
{
    let longer = items.push(last);
    assert forall|i: int, j: int| 0 <= i < j < longer.len() implies less(
        #[trigger] longer[i],
        #[trigger] longer[j],
    ) by {
        if j == items.len() {
            assert(items.contains(items[i]));
        } else {
            assert(less(items[i], items[j]));
        }
    }
    assert forall|c: T| #[trigger] longer.contains(c) implies items.contains(c) || c == last by {
        let i = choose|i: int| 0 <= i < longer.len() && longer[i] == c;
        if i < items.len() {
            assert(items[i] == c);
        }
    }
    assert forall|c: T| items.contains(c) || c == last implies #[trigger] longer.contains(c) by {
        if items.contains(c) {
            let i = choose|i: int| 0 <= i < items.len() && items[i] == c;
            assert(longer[i] == c);
        } else {
            assert(longer[items.len() as int] == c);
        }
    }
}

} // verus!
