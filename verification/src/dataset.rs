use vstd::prelude::*;

verus! {

/// The number of classes a labeled dataset spans: one more than the largest
/// class index, and none at all for an empty dataset.
pub fn num_classes<T>(data: &Vec<(usize, T)>) -> (r: usize)
    requires
        forall|i: int| 0 <= i < data@.len() ==> (#[trigger] data@[i]).0 < usize::MAX,
    ensures
        data@.len() == 0 ==> r == 0,
        forall|i: int| 0 <= i < data@.len() ==> (#[trigger] data@[i]).0 < r,
        data@.len() > 0 ==> exists|i: int| 0 <= i < data@.len() && (#[trigger] data@[i]).0 + 1 == r,
{
    if data.len() == 0 {
        return 0;
    }
    let mut max: usize = data[0].0;
    let n = data.len();
    for i in 1..n
        invariant
            n == data@.len(),
            forall|j: int| 0 <= j < data@.len() ==> (#[trigger] data@[j]).0 < usize::MAX,
            forall|j: int| 0 <= j < i ==> (#[trigger] data@[j]).0 <= max,
            exists|j: int| 0 <= j < i && (#[trigger] data@[j]).0 == max,
    {
        if data[i].0 > max {
            max = data[i].0;
        }
    }
    max + 1
}

/// The class-selection rule of prediction: the index of the greatest
/// activation, and the first such index on ties; 0 when there are no
/// activations at all. Takes the activations in an order-preserving integer
/// form, as the bits of a non-negative activation are.
pub fn argmax_first(outputs: &Vec<u32>) -> (r: usize)
    ensures
        outputs@.len() == 0 ==> r == 0,
        outputs@.len() > 0 ==> {
            &&& r < outputs@.len()
            &&& forall|j: int| 0 <= j < outputs@.len() ==> #[trigger] outputs@[j] <= outputs@[r as int]
            &&& forall|j: int| 0 <= j < r ==> #[trigger] outputs@[j] < outputs@[r as int]
        },
{
    if outputs.len() == 0 {
        return 0;
    }
    let mut best: usize = 0;
    let mut best_value: u32 = outputs[0];
    let n = outputs.len();
    for i in 1..n
        invariant
            n == outputs@.len(),
            best < i,
            best_value == outputs@[best as int],
            forall|j: int| 0 <= j < i ==> #[trigger] outputs@[j] <= best_value,
            forall|j: int| 0 <= j < best ==> #[trigger] outputs@[j] < best_value,
    {
        if outputs[i] > best_value {
            best = i;
            best_value = outputs[i];
        }
    }
    best
}

/// The one-hot target for class `class` among `n` classes: `one` at index
/// `class`, `zero` everywhere else.
pub fn one_hot<T: Copy>(zero: T, one: T, n: usize, class: usize) -> (r: Vec<T>)
    requires
        class < n,
    ensures
        r@.len() == n,
        r@[class as int] == one,
        forall|j: int| 0 <= j < n && j != class ==> r@[j] == zero,
{
    let mut target: Vec<T> = Vec::with_capacity(n);
    for i in 0..n
        invariant
            target@.len() == i,
            class < n,
            forall|j: int| 0 <= j < i && j != class ==> target@[j] == zero,
            i > class ==> target@[class as int] == one,
    {
        if i == class {
            target.push(one);
        } else {
            target.push(zero);
        }
    }
    target
}

} // verus!
