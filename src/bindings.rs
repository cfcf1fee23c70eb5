use vstd::prelude::*;

verus! {

/// Whether `i` is the first position of `s` bound to the name `n`.
pub open spec fn first_binding_at<V>(s: Seq<(String, V)>, n: Seq<char>, i: int) -> bool {
    &&& 0 <= i < s.len()
    &&& s[i].0@ == n
    &&& forall|j: int| 0 <= j < i ==> (#[trigger] s[j]).0@ != n
}

/// What the name `n` is bound to in `s`: the first binding of that name.
pub open spec fn binding<V>(s: Seq<(String, V)>, n: Seq<char>) -> Option<V> {
    if exists|i: int| #[trigger] first_binding_at(s, n, i) {
        Some(s[choose|i: int| #[trigger] first_binding_at(s, n, i)].1)
    } else {
        None
    }
}

/// The position of the first binding of `name`, if any.
pub fn find_binding<V>(s: &Vec<(String, V)>, name: &str) -> (r: Option<usize>)
    ensures
        match r {
            Some(i) => first_binding_at(s@, name@, i as int) && binding(s@, name@) == Some(
                s@[i as int].1,
            ),
            None => binding(s@, name@) == None::<V> && forall|j: int|
                0 <= j < s@.len() ==> (#[trigger] s@[j]).0@ != name@,
        },
{
    let key = name.to_string();
    let mut i: usize = 0;
    while i < s.len()
        invariant
            key@ == name@,
            i <= s@.len(),
            forall|j: int| 0 <= j < i ==> (#[trigger] s@[j]).0@ != name@,
        decreases s@.len() - i,
    {
        if s[i].0 == key {
            proof {
                assert(first_binding_at(s@, name@, i as int));
                let c = choose|c: int| #[trigger] first_binding_at(s@, name@, c);
                if c < i {
                    assert(s@[c].0@ != name@);
                } else if c > i {
                    assert(s@[i as int].0@ != name@);
                }
            }
            return Some(i);
        }
        i = i + 1;
    }
    None
}

} // verus!
