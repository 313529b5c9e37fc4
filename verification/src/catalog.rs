//! The area catalog: every node of the hierarchy in load order, with search
//! by name and the walk from a node to its ancestors.

use crate::area::{views_of, Area, AreaClass, AreaView};
use crate::text::{chars_of, contains_chars, is_substring};
use vstd::prelude::*;

verus! {

/// The number of parent links between a `Class20` node and its `Center`: no
/// walk towards the root follows more.
pub const MAX_HOPS: usize = 3;

/// The first area of `areas`, in load order, whose code is `code`.
pub open spec fn find_area(areas: Seq<AreaView>, code: Seq<char>) -> Option<AreaView>
    decreases areas.len(),
{
    if areas.len() == 0 {
        None
    } else {
        match find_area(areas.drop_last(), code) {
            Some(a) => Some(a),
            None => if areas.last().code == code {
                Some(areas.last())
            } else {
                None
            },
        }
    }
}

/// The test that `search` applies to each area: `query` is a contiguous run
/// of the characters of its name.
pub open spec fn name_matches(query: Seq<char>) -> spec_fn(AreaView) -> bool {
    |a: AreaView| is_substring(a.name, query)
}

/// The test that `search_leaf` applies to each area.
pub open spec fn leaf_matches(query: Seq<char>) -> spec_fn(AreaView) -> bool {
    |a: AreaView| a.class == AreaClass::Class20 && is_substring(a.name, query)
}

/// The areas whose name contains `query`, in load order.
pub open spec fn search_areas(areas: Seq<AreaView>, query: Seq<char>) -> Seq<AreaView> {
    areas.filter(name_matches(query))
}

/// The `Class20` areas whose name contains `query`, in load order.
pub open spec fn search_leaves(areas: Seq<AreaView>, query: Seq<char>) -> Seq<AreaView> {
    areas.filter(leaf_matches(query))
}

/// The nearest node of level `target` that is reached from `start` by
/// following at most `hops` parent links. The walk ends without a result at
/// a node that has no parent or whose parent is not in `areas`.
pub open spec fn ancestor_within(
    areas: Seq<AreaView>,
    start: AreaView,
    target: AreaClass,
    hops: nat,
) -> Option<AreaView>
    decreases hops,
{
    if hops == 0 {
        None
    } else {
        match start.parent {
            None => None,
            Some(code) => match find_area(areas, code) {
                None => None,
                Some(up) => if up.class == target {
                    Some(up)
                } else {
                    ancestor_within(areas, up, target, (hops - 1) as nat)
                },
            },
        }
    }
}

/// The ancestor of `start` at level `target`.
pub open spec fn ancestor_of(areas: Seq<AreaView>, start: AreaView, target: AreaClass) -> Option<
    AreaView,
> {
    ancestor_within(areas, start, target, MAX_HOPS as nat)
}

/// Following at most `hops` parent links from `start` ends at a root, that
/// is at a node without a parent, of whatever level. It does not where a
/// link names no area, or where the links go on beyond `hops`.
pub open spec fn reaches_root_within(areas: Seq<AreaView>, start: AreaView, hops: nat) -> bool
    decreases hops,
{
    match start.parent {
        None => true,
        Some(code) => hops > 0 && match find_area(areas, code) {
            None => false,
            Some(up) => reaches_root_within(areas, up, (hops - 1) as nat),
        },
    }
}

/// The parent links of `start` end at a root within the depth of the hierarchy.
pub open spec fn reaches_root(areas: Seq<AreaView>, start: AreaView) -> bool {
    reaches_root_within(areas, start, MAX_HOPS as nat)
}

/// None of the parent links that are followed from `start`, at most `hops`
/// of them, is the code `code`: the walk from `start` does not pass through
/// an area of that code.
pub open spec fn links_avoid(areas: Seq<AreaView>, start: AreaView, code: Seq<char>, hops: nat) -> bool
    decreases hops,
{
    hops == 0 || match start.parent {
        None => true,
        Some(link) => link != code && match find_area(areas, link) {
            None => true,
            Some(up) => links_avoid(areas, up, code, (hops - 1) as nat),
        },
    }
}

/// The hierarchy is as it should be along the parent links of `start`: a
/// `Center` has no parent, and the parent of any other node is in `areas`,
/// is of the level next above, and is itself so placed.
pub open spec fn chain_sound(areas: Seq<AreaView>, start: AreaView) -> bool
    decreases start.class.depth(),
{
    match start.parent {
        None => start.class == AreaClass::Center,
        Some(code) => match find_area(areas, code) {
            None => false,
            Some(up) => if start.class.above() == Some(up.class) {
                chain_sound(areas, up)
            } else {
                false
            },
        },
    }
}

/// The view of an optional borrowed area.
pub open spec fn view_of(found: Option<&Area>) -> Option<AreaView> {
    match found {
        Some(a) => Some(a@),
        None => None,
    }
}

/// A lookup that succeeds on the first `k` areas gives the same on all of them.
pub proof fn lemma_find_area_prefix(areas: Seq<AreaView>, code: Seq<char>, k: int)
    requires
        0 <= k <= areas.len(),
        find_area(areas.take(k), code) is Some,
    ensures
        find_area(areas, code) == find_area(areas.take(k), code),
    decreases areas.len() - k,
{
    if k == areas.len() {
        assert(areas.take(k) =~= areas);
    } else {
        assert(areas.take(k + 1).drop_last() =~= areas.take(k));
        lemma_find_area_prefix(areas, code, k + 1);
    }
}

/// What a lookup finds carries the code asked for and is one of the areas.
pub proof fn lemma_find_area_found(areas: Seq<AreaView>, code: Seq<char>)
    ensures
        find_area(areas, code) matches Some(a) ==> a.code == code && areas.contains(a),
        find_area(areas, code) is None <==> forall|i: int|
            0 <= i < areas.len() ==> (#[trigger] areas[i]).code != code,
    decreases areas.len(),
{
    if areas.len() > 0 {
        let front = areas.drop_last();
        lemma_find_area_found(front, code);
        assert(forall|i: int| 0 <= i < front.len() ==> front[i] == areas[i]);
        if find_area(front, code) is Some {
            let a = find_area(front, code).unwrap();
            let i = choose|i: int| 0 <= i < front.len() && front[i] == a;
            assert(areas[i] == a);
        } else {
            assert(areas.last() == areas[areas.len() - 1]);
        }
    }
}

/// The hierarchy as it was loaded. The records are not changed after that.
pub struct AreaCatalog {
    areas: Vec<Area>,
}

impl View for AreaCatalog {
    type V = Seq<AreaView>;

    closed spec fn view(&self) -> Seq<AreaView> {
        self.areas@.map_values(|a: Area| a@)
    }
}

impl AreaCatalog {
    /// The catalog of `areas`, in the order given.
    pub fn new(areas: Vec<Area>) -> (catalog: AreaCatalog)
        ensures
            catalog@ == areas@.map_values(|a: Area| a@),
    {
        AreaCatalog { areas }
    }

    /// The number of areas.
    pub fn len(&self) -> (n: usize)
        ensures
            n == self@.len(),
    {
        self.areas.len()
    }

    /// The area at position `i` of the load order.
    pub fn get(&self, i: usize) -> (area: Option<&Area>)
        ensures
            view_of(area) == if i < self@.len() {
                Some(self@[i as int])
            } else {
                None
            },
    {
        if i < self.areas.len() {
            Some(&self.areas[i])
        } else {
            None
        }
    }

    /// The first area, in load order, whose code is `code`.
    pub fn find(&self, code: &str) -> (found: Option<&Area>)
        ensures
            view_of(found) == find_area(self@, code@),
    {
        let wanted: String = code.to_owned();
        let mut i: usize = 0;
        while i < self.areas.len()
            invariant
                i <= self.areas.len(),
                wanted@ == code@,
                find_area(self@.take(i as int), code@) is None,
            decreases self.areas.len() - i,
        {
            let area = &self.areas[i];
            proof {
                assert(self@.take(i + 1).drop_last() =~= self@.take(i as int));
                assert(self@.take(i + 1).last() == area@);
            }
            if area.code == wanted {
                proof {
                    lemma_find_area_prefix(self@, code@, i + 1);
                }
                return Some(area);
            }
            i += 1;
        }
        assert(self@.take(i as int) =~= self@);
        None
    }

    /// Every area whose name contains `query` as a contiguous run of
    /// characters, whatever its level, in load order. Case is significant.
    pub fn search(&self, query: &str) -> (found: Vec<&Area>)
        ensures
            views_of(found@) == search_areas(self@, query@),
    {
        let needle = chars_of(query);
        let mut found: Vec<&Area> = Vec::new();
        let mut i: usize = 0;
        assert(self@.take(0).filter(name_matches(query@)) =~= Seq::empty()) by {
            reveal(Seq::filter);
        }
        while i < self.areas.len()
            invariant
                i <= self.areas.len(),
                needle@ == query@,
                views_of(found@) =~= self@.take(i as int).filter(name_matches(query@)),
            decreases self.areas.len() - i,
        {
            let area = &self.areas[i];
            let name = chars_of(area.name.as_str());
            proof {
                self@.lemma_take_succ_push(i as int);
                self@.take(i as int).lemma_filter_push(area@, name_matches(query@));
            }
            if contains_chars(&name, &needle) {
                found.push(area);
            }
            i += 1;
        }
        assert(self@.take(i as int) =~= self@);
        found
    }

    /// Every `Class20` area whose name contains `query`, in load order.
    pub fn search_leaf(&self, query: &str) -> (found: Vec<&Area>)
        ensures
            views_of(found@) == search_leaves(self@, query@),
    {
        let needle = chars_of(query);
        let mut found: Vec<&Area> = Vec::new();
        let mut i: usize = 0;
        assert(self@.take(0).filter(leaf_matches(query@)) =~= Seq::empty()) by {
            reveal(Seq::filter);
        }
        while i < self.areas.len()
            invariant
                i <= self.areas.len(),
                needle@ == query@,
                views_of(found@) =~= self@.take(i as int).filter(leaf_matches(query@)),
            decreases self.areas.len() - i,
        {
            let area = &self.areas[i];
            proof {
                self@.lemma_take_succ_push(i as int);
                self@.take(i as int).lemma_filter_push(area@, leaf_matches(query@));
            }
            if area.class == AreaClass::Class20 {
                let name = chars_of(area.name.as_str());
                if contains_chars(&name, &needle) {
                    found.push(area);
                }
            }
            i += 1;
        }
        assert(self@.take(i as int) =~= self@);
        found
    }

    /// The nearest ancestor of `area` at level `target`: the parent links are
    /// followed upward, at most `MAX_HOPS` of them, until a node of that
    /// level is met. `None` where the links end before that. What is
    /// returned is always of level `target`.
    pub fn ancestor(&self, area: &Area, target: AreaClass) -> (found: Option<&Area>)
        ensures
            view_of(found) == ancestor_of(self@, area@, target),
            found matches Some(a) ==> a@.class == target,
    {
        let mut cur: &Area = area;
        let mut hops: usize = MAX_HOPS;
        while hops > 0
            invariant
                ancestor_within(self@, cur@, target, hops as nat) == ancestor_of(
                    self@,
                    area@,
                    target,
                ),
            decreases hops,
        {
            match &cur.parent {
                None => {
                    return None;
                },
                Some(code) => match self.find(code.as_str()) {
                    None => {
                        return None;
                    },
                    Some(up) => {
                        if up.class == target {
                            return Some(up);
                        }
                        cur = up;
                        hops -= 1;
                    },
                },
            }
        }
        None
    }

    /// Whether the parent links of `area` end at a root, a node without a
    /// parent, within `MAX_HOPS` links.
    pub fn chain_reaches_root(&self, area: &Area) -> (rooted: bool)
        ensures
            rooted == reaches_root(self@, area@),
    {
        let mut cur: &Area = area;
        let mut hops: usize = MAX_HOPS;
        loop
            invariant
                reaches_root_within(self@, cur@, hops as nat) == reaches_root(self@, area@),
            decreases hops,
        {
            match &cur.parent {
                None => {
                    return true;
                },
                Some(code) => {
                    if hops == 0 {
                        return false;
                    }
                    match self.find(code.as_str()) {
                        None => {
                            return false;
                        },
                        Some(up) => {
                            cur = up;
                            hops -= 1;
                        },
                    }
                },
            }
        }
    }
}

} // verus!
