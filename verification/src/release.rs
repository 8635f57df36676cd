//! OpenShift release-payload discovery.
//!
//! An `ocp-release` image carries `release-manifests/image-references` — an
//! OpenShift ImageStream whose tags map a component name to the full image
//! reference for that component. Reading its JSON happens outside this
//! library; the component list and the choice of what to pack are here.
use vstd::prelude::*;
use crate::mirror::str_is;

verus! {

/// One component → image reference mapping from `image-references`.
#[derive(Clone, Debug)]
pub struct ComponentRef {
    /// Component/tag name, e.g. `machine-os-images`, `installer`, `cli`.
    pub name: String,
    /// Full upstream image reference.
    pub image: String,
}

/// The parsed `image-references` payload.
#[derive(Clone, Debug)]
pub struct ImageReferences {
    /// All component references, in file order.
    pub components: Vec<ComponentRef>,
}

impl ImageReferences {
    /// Look up a component's image reference by name: the first component
    /// with that name.
    pub fn get(&self, name: &str) -> (r: Option<&str>)
        ensures
            match r {
                Some(img) => exists|i: int|
                    0 <= i < self.components@.len() && self.components@[i].name@ == name@
                        && self.components@[i].image@ == img@ && forall|j: int|
                        0 <= j < i ==> #[trigger] self.components@[j].name@ != name@,
                None => forall|j: int|
                    0 <= j < self.components@.len() ==> #[trigger] self.components@[j].name@ != name@,
            },
    {
        let mut i: usize = 0;
        while i < self.components.len()
            invariant
                i <= self.components@.len(),
                forall|j: int| 0 <= j < i ==> #[trigger] self.components@[j].name@ != name@,
            decreases self.components@.len() - i,
        {
            if str_is(self.components[i].name.as_str(), name) {
                return Some(self.components[i].image.as_str());
            }
            i += 1;
        }
        None
    }
}

/// Whether component `i` is the first with its image reference.
pub open spec fn first_of_image(cs: Seq<ComponentRef>, i: int) -> bool {
    forall|j: int| 0 <= j < i ==> #[trigger] cs[j].image@ != cs[i].image@
}

/// The indices below `n` of components that are the first with their image,
/// in order.
pub open spec fn planned(cs: Seq<ComponentRef>, n: int) -> Seq<usize>
    decreases n,
{
    if n <= 0 {
        Seq::empty()
    } else if first_of_image(cs, n - 1) {
        planned(cs, n - 1).push((n - 1) as usize)
    } else {
        planned(cs, n - 1)
    }
}

/// How many components a run attempts: all of them, or at most `limit`.
pub open spec fn attempted(len: int, limit: Option<usize>) -> int {
    match limit {
        Some(l) => if l < len {
            l as int
        } else {
            len
        },
        None => len,
    }
}

/// Which components of a release to pack, by index: among the first `limit`
/// (or all), each image reference once — several tags can point at the same
/// image, and only the first of them is packed.
pub fn plan_components(refs: &ImageReferences, limit: Option<usize>) -> (plan: Vec<usize>)
    ensures
        plan@ == planned(refs.components@, attempted(refs.components@.len() as int, limit)),
{
    let len = refs.components.len();
    let n = match limit {
        Some(l) => if l < len {
            l
        } else {
            len
        },
        None => len,
    };
    let mut plan: Vec<usize> = Vec::new();
    let mut i: usize = 0;
    while i < n
        invariant
            i <= n <= refs.components@.len(),
            plan@ == planned(refs.components@, i as int),
        decreases n - i,
    {
        let mut first = true;
        let mut j: usize = 0;
        while j < i
            invariant
                j <= i < refs.components@.len(),
                first == forall|k: int| 0 <= k < j ==> #[trigger] refs.components@[k].image@ != refs.components@[i as int].image@,
            decreases i - j,
        {
            if refs.components[j].image == refs.components[i].image {
                first = false;
            }
            j += 1;
        }
        if first {
            plan.push(i);
        }
        i += 1;
    }
    plan
}

} // verus!

verus! {

/// A release plan packs each image once and misses none: the planned indices
/// rise strictly and stay below `n`, no two planned components share an
/// image reference, and every component below `n` shares its image with a
/// planned one.
pub proof fn lemma_plan_each_image_once(cs: Seq<ComponentRef>, n: int)
    requires
        0 <= n <= cs.len() <= usize::MAX,
    ensures
        forall|a: int, b: int|
            0 <= a < b < planned(cs, n).len() ==> planned(cs, n)[a] < planned(cs, n)[b],
        forall|a: int| 0 <= a < planned(cs, n).len() ==> planned(cs, n)[a] < n,
        forall|a: int, b: int|
            0 <= a < b < planned(cs, n).len() ==> cs[planned(cs, n)[a] as int].image@ != cs[planned(
                cs,
                n,
            )[b] as int].image@,
        forall|i: int|
            #![trigger cs[i]]
            0 <= i < n ==> exists|k: int|
                0 <= k < planned(cs, n).len() && cs[#[trigger] planned(cs, n)[k] as int].image@
                    == cs[i].image@,
    decreases n,
{
    if n > 0 {
        lemma_plan_each_image_once(cs, n - 1);
        let p = planned(cs, n - 1);
        if first_of_image(cs, n - 1) {
            let q = p.push((n - 1) as usize);
            assert(planned(cs, n) == q);
            assert forall|a: int, b: int| 0 <= a < b < q.len() implies cs[q[a] as int].image@ != cs[q[
                b
            ] as int].image@ by {
                if b == q.len() - 1 {
                    assert(q[a] == p[a]);
                    assert(cs[p[a] as int].image@ != cs[n - 1].image@);
                }
            }
            assert forall|i: int| #![trigger cs[i]] 0 <= i < n implies exists|k: int|
                0 <= k < q.len() && cs[#[trigger] q[k] as int].image@ == cs[i].image@ by {
                if i == n - 1 {
                    assert(q[q.len() - 1] == n - 1);
                } else {
                    let k = choose|k: int| 0 <= k < p.len() && cs[#[trigger] p[k] as int].image@ == cs[i].image@;
                    assert(q[k] == p[k]);
                }
            }
        } else {
            assert(planned(cs, n) == p);
            assert forall|i: int| #![trigger cs[i]] 0 <= i < n implies exists|k: int|
                0 <= k < p.len() && cs[#[trigger] p[k] as int].image@ == cs[i].image@ by {
                if i == n - 1 {
                    let j = choose|j: int| 0 <= j < n - 1 && #[trigger] cs[j].image@ == cs[n - 1].image@;
                    let k = choose|k: int| 0 <= k < p.len() && cs[#[trigger] p[k] as int].image@ == cs[j].image@;
                }
            }
        }
    }
}

} // verus!
