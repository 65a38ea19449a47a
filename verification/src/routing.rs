use crate::bgp_type::AutonomousSystemNumber;
use crate::config::Config;
use crate::ipv4::Ipv4Addr;
use crate::ipv4::Ipv4Network;
use crate::path_attribute::copy_attributes;
use crate::path_attribute::same_attributes;
use crate::path_attribute::spec_attribute_views;
use crate::packets::update::UpdateMessage;
use crate::packets::update::UpdateMessageView;
use crate::path_attribute::AsPath;
use crate::path_attribute::AsPathView;
use crate::path_attribute::Origin;
use crate::path_attribute::PathAttribute;
use crate::path_attribute::PathAttributeView;
use vstd::prelude::*;
use vstd::std_specs::cmp::PartialEqSpecImpl;

verus! {

/// Whether a route has been handed on since it came into a table.
#[derive(Debug, PartialEq, Eq, Clone, Copy, Hash, Structural)]
pub enum RibEntryStatus {
    New,
    UnChanged,
}

/// A route: a network and the attributes of the path to it.
#[derive(Debug, PartialEq, Eq, Hash)]
pub struct RibEntry {
    pub network_address: Ipv4Network,
    pub path_attributes: Vec<PathAttribute>,
}

/// What a `RibEntry` holds.
pub struct RibEntryView {
    pub network_address: Ipv4Network,
    pub path_attributes: Seq<PathAttributeView>,
}

impl View for RibEntry {
    type V = RibEntryView;

    open spec fn view(&self) -> RibEntryView {
        RibEntryView {
            network_address: self.network_address,
            path_attributes: spec_attribute_views(self.path_attributes@),
        }
    }
}

/// The first AS path among the attributes, if there is one.
pub open spec fn spec_first_as_path(attributes: Seq<PathAttributeView>) -> Option<AsPathView>
    decreases attributes.len(),
{
    if attributes.len() == 0 {
        None
    } else {
        match attributes[0] {
            PathAttributeView::AsPath(path) => Some(path),
            _ => spec_first_as_path(attributes.drop_first()),
        }
    }
}

/// The first next hop among the attributes, if there is one.
pub open spec fn spec_first_next_hop(attributes: Seq<PathAttributeView>) -> Option<Ipv4Addr>
    decreases attributes.len(),
{
    if attributes.len() == 0 {
        None
    } else {
        match attributes[0] {
            PathAttributeView::NextHop(next_hop) => Some(next_hop),
            _ => spec_first_next_hop(attributes.drop_first()),
        }
    }
}

/// The attributes with `a` added to every AS path among them.
pub open spec fn spec_append_as_path(
    attributes: Seq<PathAttributeView>,
    a: AutonomousSystemNumber,
) -> Seq<PathAttributeView> {
    Seq::new(
        attributes.len(),
        |i: int|
            match attributes[i] {
                PathAttributeView::AsPath(path) => PathAttributeView::AsPath(path.spec_push(a)),
                other => other,
            },
    )
}

/// The attributes with every next hop among them replaced by `next_hop`.
pub open spec fn spec_change_next_hop(
    attributes: Seq<PathAttributeView>,
    next_hop: Ipv4Addr,
) -> Seq<PathAttributeView> {
    Seq::new(
        attributes.len(),
        |i: int|
            match attributes[i] {
                PathAttributeView::NextHop(_) => PathAttributeView::NextHop(next_hop),
                other => other,
            },
    )
}

/// The attributes as a speaker hands them on: its AS number added to every
/// AS path, and every next hop replaced by its address.
pub open spec fn spec_rewrite_attributes(
    attributes: Seq<PathAttributeView>,
    local_ip: Ipv4Addr,
    local_as: AutonomousSystemNumber,
) -> Seq<PathAttributeView> {
    spec_change_next_hop(spec_append_as_path(attributes, local_as), local_ip)
}

impl RibEntryView {
    /// Whether the first AS path among the attributes contains `a`. A route
    /// without an AS path contains no AS number.
    pub open spec fn spec_contains_as(self, a: AutonomousSystemNumber) -> bool {
        match spec_first_as_path(self.path_attributes) {
            Some(path) => path.spec_contains(a),
            None => false,
        }
    }
}

/// Where no attribute before index `i` is an AS path, the first AS path of
/// the list is the first one from `i` on.
pub proof fn lemma_first_as_path_skip(attributes: Seq<PathAttributeView>, i: int)
    requires
        0 <= i <= attributes.len(),
        forall|j: int| 0 <= j < i ==> !((#[trigger] attributes[j]) is AsPath),
    ensures
        spec_first_as_path(attributes) == spec_first_as_path(attributes.skip(i)),
    decreases i,
{
    if i == 0 {
        assert(attributes.skip(0) =~= attributes);
    } else {
        let rest = attributes.drop_first();
        assert forall|j: int| 0 <= j < i - 1 implies !((#[trigger] rest[j]) is AsPath) by {
            assert(rest[j] == attributes[j + 1]);
        }
        lemma_first_as_path_skip(rest, i - 1);
        assert(rest.skip(i - 1) =~= attributes.skip(i));
        assert(!(attributes[0] is AsPath));
    }
}

/// Where no attribute before index `i` is a next hop, the first next hop of
/// the list is the first one from `i` on.
pub proof fn lemma_first_next_hop_skip(attributes: Seq<PathAttributeView>, i: int)
    requires
        0 <= i <= attributes.len(),
        forall|j: int| 0 <= j < i ==> !((#[trigger] attributes[j]) is NextHop),
    ensures
        spec_first_next_hop(attributes) == spec_first_next_hop(attributes.skip(i)),
    decreases i,
{
    if i == 0 {
        assert(attributes.skip(0) =~= attributes);
    } else {
        let rest = attributes.drop_first();
        assert forall|j: int| 0 <= j < i - 1 implies !((#[trigger] rest[j]) is NextHop) by {
            assert(rest[j] == attributes[j + 1]);
        }
        lemma_first_next_hop_skip(rest, i - 1);
        assert(rest.skip(i - 1) =~= attributes.skip(i));
        assert(!(attributes[0] is NextHop));
    }
}

impl RibEntry {
    /// Whether the two routes are to the same network with the same
    /// attributes in the same order.
    pub fn equals(&self, other: &RibEntry) -> (r: bool)
        ensures
            r == (self@ == other@),
    {
        self.network_address == other.network_address && same_attributes(
            &self.path_attributes,
            &other.path_attributes,
        )
    }

    /// Whether the first AS path among the attributes contains `as_number`.
    pub fn does_contain_as(&self, as_number: AutonomousSystemNumber) -> (r: bool)
        ensures
            r == self@.spec_contains_as(as_number),
    {
        let ghost views = spec_attribute_views(self.path_attributes@);
        let mut i: usize = 0;
        while i < self.path_attributes.len()
            invariant
                i <= self.path_attributes.len(),
                views == spec_attribute_views(self.path_attributes@),
                forall|j: int| 0 <= j < i ==> !((#[trigger] views[j]) is AsPath),
            decreases self.path_attributes.len() - i,
        {
            match &self.path_attributes[i] {
                PathAttribute::AsPath(path) => {
                    proof {
                        lemma_first_as_path_skip(views, i as int);
                        assert(views.skip(i as int)[0] == views[i as int]);
                    }
                    return path.does_contain(as_number);
                },
                _ => {},
            }
            i = i + 1;
        }
        proof {
            lemma_first_as_path_skip(views, views.len() as int);
        }
        false
    }

    /// Adds `as_number` to every AS path among the attributes.
    pub fn append_as_path(&mut self, as_number: AutonomousSystemNumber)
        ensures
            final(self)@.network_address == old(self)@.network_address,
            final(self)@.path_attributes == spec_append_as_path(
                old(self)@.path_attributes,
                as_number,
            ),
    {
        let mut i: usize = 0;
        while i < self.path_attributes.len()
            invariant
                i <= self.path_attributes.len(),
                self.network_address == old(self).network_address,
                self.path_attributes@.len() == old(self).path_attributes@.len(),
                forall|j: int|
                    0 <= j < i ==> (#[trigger] self.path_attributes@[j])@ == spec_append_as_path(
                        old(self)@.path_attributes,
                        as_number,
                    )[j],
                forall|j: int|
                    i <= j < self.path_attributes@.len() ==> (#[trigger] self.path_attributes@[j])
                        == old(self).path_attributes@[j],
            decreases self.path_attributes.len() - i,
        {
            match &mut self.path_attributes[i] {
                PathAttribute::AsPath(path) => {
                    path.add(as_number);
                },
                _ => {},
            }
            i = i + 1;
        }
        assert(self@.path_attributes =~= spec_append_as_path(
            old(self)@.path_attributes,
            as_number,
        ));
    }

    /// Replaces every next hop among the attributes by `next_hop`.
    pub fn change_next_hop(&mut self, next_hop: Ipv4Addr)
        ensures
            final(self)@.network_address == old(self)@.network_address,
            final(self)@.path_attributes == spec_change_next_hop(
                old(self)@.path_attributes,
                next_hop,
            ),
    {
        let mut i: usize = 0;
        while i < self.path_attributes.len()
            invariant
                i <= self.path_attributes.len(),
                self.network_address == old(self).network_address,
                self.path_attributes@.len() == old(self).path_attributes@.len(),
                forall|j: int|
                    0 <= j < i ==> (#[trigger] self.path_attributes@[j])@ == spec_change_next_hop(
                        old(self)@.path_attributes,
                        next_hop,
                    )[j],
                forall|j: int|
                    i <= j < self.path_attributes@.len() ==> (#[trigger] self.path_attributes@[j])
                        == old(self).path_attributes@[j],
            decreases self.path_attributes.len() - i,
        {
            match &mut self.path_attributes[i] {
                PathAttribute::NextHop(addr) => {
                    *addr = next_hop;
                },
                _ => {},
            }
            i = i + 1;
        }
        assert(self@.path_attributes =~= spec_change_next_hop(
            old(self)@.path_attributes,
            next_hop,
        ));
    }

    /// The next hop of the route: the first one among its attributes.
    pub fn next_hop(&self) -> (r: Option<Ipv4Addr>)
        ensures
            r == spec_first_next_hop(self@.path_attributes),
    {
        let ghost views = spec_attribute_views(self.path_attributes@);
        let mut i: usize = 0;
        while i < self.path_attributes.len()
            invariant
                i <= self.path_attributes.len(),
                views == spec_attribute_views(self.path_attributes@),
                forall|j: int| 0 <= j < i ==> !((#[trigger] views[j]) is NextHop),
            decreases self.path_attributes.len() - i,
        {
            match &self.path_attributes[i] {
                PathAttribute::NextHop(next_hop) => {
                    proof {
                        lemma_first_next_hop_skip(views, i as int);
                        assert(views.skip(i as int)[0] == views[i as int]);
                    }
                    return Some(*next_hop);
                },
                _ => {},
            }
            i = i + 1;
        }
        proof {
            lemma_first_next_hop_skip(views, views.len() as int);
        }
        None
    }
}

impl Clone for RibEntry {
    fn clone(&self) -> (r: Self)
        ensures
            r@ == self@,
    {
        RibEntry {
            network_address: self.network_address,
            path_attributes: copy_attributes(&self.path_attributes),
        }
    }
}

/// The table with `entry` in it: as it was where it held the route already,
/// with the route marked new where it did not.
pub open spec fn spec_insert(
    table: Map<RibEntryView, RibEntryStatus>,
    entry: RibEntryView,
) -> Map<RibEntryView, RibEntryStatus> {
    if table.contains_key(entry) {
        table
    } else {
        table.insert(entry, RibEntryStatus::New)
    }
}

/// The table with every route of `added` in it: the routes that it held keep
/// their marks, the others are marked new.
pub open spec fn spec_merge(
    table: Map<RibEntryView, RibEntryStatus>,
    added: Set<RibEntryView>,
) -> Map<RibEntryView, RibEntryStatus> {
    Map::new(
        |e: RibEntryView| table.contains_key(e) || added.contains(e),
        |e: RibEntryView|
            if table.contains_key(e) {
                table[e]
            } else {
                RibEntryStatus::New
            },
    )
}

/// The table with the same routes, none of them marked new.
pub open spec fn spec_all_unchanged(table: Map<RibEntryView, RibEntryStatus>) -> Map<
    RibEntryView,
    RibEntryStatus,
> {
    Map::new(|e: RibEntryView| table.contains_key(e), |e: RibEntryView| RibEntryStatus::UnChanged)
}

/// Whether a route of the table is marked new.
pub open spec fn spec_has_new(table: Map<RibEntryView, RibEntryStatus>) -> bool {
    exists|e: RibEntryView| #[trigger] table.contains_key(e) && table[e] == RibEntryStatus::New
}

/// The routes of the table whose AS path does not contain `barred`.
pub open spec fn spec_loop_free_routes(
    table: Map<RibEntryView, RibEntryStatus>,
    barred: AutonomousSystemNumber,
) -> Set<RibEntryView> {
    Set::new(|e: RibEntryView| table.contains_key(e) && !e.spec_contains_as(barred))
}

/// The routes to one of `networks` with the given attributes.
pub open spec fn spec_routes_to(
    networks: Seq<Ipv4Network>,
    path_attributes: Seq<PathAttributeView>,
) -> Set<RibEntryView> {
    Set::new(
        |e: RibEntryView|
            e.path_attributes == path_attributes && networks.contains(e.network_address),
    )
}

/// Whether no route of the table has an AS path that contains `a`.
pub open spec fn spec_loop_free(
    table: Map<RibEntryView, RibEntryStatus>,
    a: AutonomousSystemNumber,
) -> bool {
    forall|e: RibEntryView| #[trigger] table.contains_key(e) ==> !e.spec_contains_as(a)
}

spec fn spec_loop_free_among(
    slots: Seq<(RibEntry, RibEntryStatus)>,
    barred: AutonomousSystemNumber,
    until: int,
) -> Set<RibEntryView> {
    Set::new(
        |e: RibEntryView|
            !e.spec_contains_as(barred) && exists|j: int|
                0 <= j < until && j < slots.len() && (#[trigger] slots[j]).0@ == e,
    )
}

spec fn spec_has(slots: Seq<(RibEntry, RibEntryStatus)>, e: RibEntryView) -> bool {
    exists|i: int| 0 <= i < slots.len() && (#[trigger] slots[i]).0@ == e
}

spec fn spec_slot(slots: Seq<(RibEntry, RibEntryStatus)>, e: RibEntryView) -> int {
    choose|i: int| 0 <= i < slots.len() && (#[trigger] slots[i]).0@ == e
}

spec fn spec_distinct(slots: Seq<(RibEntry, RibEntryStatus)>) -> bool {
    forall|i: int, j: int|
        0 <= i < j < slots.len() ==> (#[trigger] slots[i]).0@ != (#[trigger] slots[j]).0@
}

spec fn spec_table(slots: Seq<(RibEntry, RibEntryStatus)>) -> Map<RibEntryView, RibEntryStatus> {
    Map::new(|e: RibEntryView| spec_has(slots, e), |e: RibEntryView| slots[spec_slot(slots, e)].1)
}

proof fn lemma_table_at(slots: Seq<(RibEntry, RibEntryStatus)>, i: int)
    requires
        spec_distinct(slots),
        0 <= i < slots.len(),
    ensures
        spec_table(slots).contains_key(slots[i].0@),
        spec_table(slots)[slots[i].0@] == slots[i].1,
        spec_slot(slots, slots[i].0@) == i,
{
    let e = slots[i].0@;
    assert(spec_has(slots, e));
    let k = spec_slot(slots, e);
    assert(slots[k].0@ == e);
    if k < i {
        assert(slots[k].0@ != slots[i].0@);
    } else if i < k {
        assert(slots[i].0@ != slots[k].0@);
    }
}

proof fn lemma_table_push(
    slots: Seq<(RibEntry, RibEntryStatus)>,
    entry: RibEntry,
    status: RibEntryStatus,
)
    requires
        spec_distinct(slots),
        !spec_has(slots, entry@),
    ensures
        spec_distinct(slots.push((entry, status))),
        spec_table(slots.push((entry, status))) == spec_table(slots).insert(entry@, status),
{
    let after = slots.push((entry, status));
    assert forall|i: int, j: int| 0 <= i < j < after.len() implies (#[trigger] after[i]).0@ != (
    #[trigger] after[j]).0@ by {
        if j == slots.len() {
            assert(after[i] == slots[i]);
            if slots[i].0@ == entry@ {
                assert(spec_has(slots, entry@));
            }
        } else {
            assert(after[i] == slots[i]);
            assert(after[j] == slots[j]);
        }
    }
    let a = spec_table(after);
    let b = spec_table(slots).insert(entry@, status);
    assert forall|e: RibEntryView| a.contains_key(e) <==> b.contains_key(e) by {
        if spec_has(after, e) {
            let k = spec_slot(after, e);
            if k < slots.len() {
                assert(slots[k].0@ == e);
            }
        }
        if spec_has(slots, e) {
            let k = spec_slot(slots, e);
            assert(after[k].0@ == e);
        }
        if e == entry@ {
            assert(after[slots.len() as int].0@ == e);
        }
    }
    assert forall|e: RibEntryView| a.contains_key(e) implies a[e] == b[e] by {
        let k = spec_slot(after, e);
        lemma_table_at(after, k);
        if k < slots.len() {
            assert(after[k] == slots[k]);
            lemma_table_at(slots, k);
        }
    }
    assert(a =~= b);
}

/// A routing information base: routes, each marked as new or as unchanged.
/// No route is held twice.
#[derive(Debug)]
pub struct Rib {
    slots: Vec<(RibEntry, RibEntryStatus)>,
}

impl View for Rib {
    type V = Map<RibEntryView, RibEntryStatus>;

    closed spec fn view(&self) -> Map<RibEntryView, RibEntryStatus> {
        spec_table(self.slots@)
    }
}

impl Rib {
    #[verifier::type_invariant]
    spec fn inv(self) -> bool {
        spec_distinct(self.slots@)
    }

    /// A table without routes.
    pub fn new() -> (r: Self)
        ensures
            r@ == Map::<RibEntryView, RibEntryStatus>::empty(),
    {
        let r = Rib { slots: Vec::new() };
        assert(r@ =~= Map::<RibEntryView, RibEntryStatus>::empty());
        r
    }

    fn position(&self, entry: &RibEntry) -> (r: Option<usize>)
        ensures
            match r {
                Some(i) => i < self.slots@.len() && self.slots@[i as int].0@ == entry@,
                None => !spec_has(self.slots@, entry@),
            },
    {
        let mut i: usize = 0;
        while i < self.slots.len()
            invariant
                i <= self.slots@.len(),
                forall|j: int| 0 <= j < i ==> (#[trigger] self.slots@[j]).0@ != entry@,
            decreases self.slots@.len() - i,
        {
            if self.slots[i].0.equals(entry) {
                return Some(i);
            }
            i = i + 1;
        }
        None
    }

    /// The mark of the route in the table, if the table holds the route.
    pub fn status(&self, entry: &RibEntry) -> (r: Option<RibEntryStatus>)
        ensures
            r == if self@.contains_key(entry@) {
                Some(self@[entry@])
            } else {
                None
            },
    {
        proof {
            use_type_invariant(self);
        }
        match self.position(entry) {
            Some(i) => {
                proof {
                    lemma_table_at(self.slots@, i as int);
                }
                Some(self.slots[i].1)
            },
            None => None,
        }
    }

    /// Whether the table holds the route.
    pub fn contains(&self, entry: &RibEntry) -> (r: bool)
        ensures
            r == self@.contains_key(entry@),
    {
        self.status(entry).is_some()
    }

    /// Puts the route into the table, marked new, unless the table holds it
    /// already: then the table stays as it is.
    pub fn insert(&mut self, entry: RibEntry)
        ensures
            final(self)@ == spec_insert(old(self)@, entry@),
    {
        proof {
            use_type_invariant(&*self);
        }
        match self.position(&entry) {
            Some(i) => {
                proof {
                    lemma_table_at(self.slots@, i as int);
                }
            },
            None => {
                proof {
                    lemma_table_push(self.slots@, entry, RibEntryStatus::New);
                }
                let mut slots: Vec<(RibEntry, RibEntryStatus)> = Vec::new();
                core::mem::swap(&mut self.slots, &mut slots);
                slots.push((entry, RibEntryStatus::New));
                self.slots = slots;
            },
        }
    }

    /// Marks every route as unchanged.
    pub fn update_to_all_unchanged(&mut self)
        ensures
            final(self)@ == spec_all_unchanged(old(self)@),
            !spec_has_new(final(self)@),
    {
        proof {
            use_type_invariant(&*self);
        }
        let mut slots: Vec<(RibEntry, RibEntryStatus)> = Vec::new();
        core::mem::swap(&mut self.slots, &mut slots);
        let ghost before = slots@;
        let mut i: usize = 0;
        while i < slots.len()
            invariant
                i <= slots@.len(),
                slots@.len() == before.len(),
                forall|j: int| 0 <= j < slots@.len() ==> (#[trigger] slots@[j]).0 == before[j].0,
                forall|j: int| 0 <= j < i ==> (#[trigger] slots@[j]).1 == RibEntryStatus::UnChanged,
            decreases slots@.len() - i,
        {
            let slot = &mut slots[i];
            slot.1 = RibEntryStatus::UnChanged;
            i = i + 1;
        }
        proof {
            assert forall|a: int, b: int| 0 <= a < b < slots@.len() implies (#[trigger] slots@[a]).0@
                != (#[trigger] slots@[b]).0@ by {
                assert(before[a].0@ != before[b].0@);
            }
            let after = spec_table(slots@);
            let want = spec_all_unchanged(spec_table(before));
            assert forall|e: RibEntryView| after.contains_key(e) <==> want.contains_key(e) by {
                if spec_has(slots@, e) {
                    let k = spec_slot(slots@, e);
                    assert(before[k].0@ == e);
                }
                if spec_has(before, e) {
                    let k = spec_slot(before, e);
                    assert(slots@[k].0@ == e);
                }
            }
            assert forall|e: RibEntryView| after.contains_key(e) implies after[e] == want[e] by {
                let k = spec_slot(slots@, e);
                assert(slots@[k].1 == RibEntryStatus::UnChanged);
            }
            assert(after =~= want);
        }
        self.slots = slots;
    }

    /// Whether a route of the table is marked new.
    pub fn does_contain_new_route(&self) -> (r: bool)
        ensures
            r == spec_has_new(self@),
    {
        proof {
            use_type_invariant(self);
        }
        let mut i: usize = 0;
        while i < self.slots.len()
            invariant
                i <= self.slots@.len(),
                spec_distinct(self.slots@),
                forall|j: int| 0 <= j < i ==> (#[trigger] self.slots@[j]).1 != RibEntryStatus::New,
            decreases self.slots@.len() - i,
        {
            match self.slots[i].1 {
                RibEntryStatus::New => {
                    proof {
                        lemma_table_at(self.slots@, i as int);
                    }
                    return true;
                },
                RibEntryStatus::UnChanged => {},
            }
            i = i + 1;
        }
        proof {
            if spec_has_new(self@) {
                let e = choose|e: RibEntryView| #[trigger]
                    self@.contains_key(e) && self@[e] == RibEntryStatus::New;
                let k = spec_slot(self.slots@, e);
                assert(self.slots@[k].1 != RibEntryStatus::New);
            }
        }
        false
    }

    /// The routes of the table, each once, in no order that is promised.
    pub fn routes(&self) -> (r: Vec<RibEntry>)
        ensures
            forall|i: int| 0 <= i < r@.len() ==> self@.contains_key((#[trigger] r@[i])@),
            forall|e: RibEntryView|
                self@.contains_key(e) ==> exists|i: int| 0 <= i < r@.len() && (#[trigger] r@[i])@ == e,
            forall|i: int, j: int|
                0 <= i < j < r@.len() ==> (#[trigger] r@[i])@ != (#[trigger] r@[j])@,
    {
        proof {
            use_type_invariant(self);
        }
        let mut r: Vec<RibEntry> = Vec::new();
        let mut i: usize = 0;
        while i < self.slots.len()
            invariant
                i <= self.slots@.len(),
                r@.len() == i,
                forall|j: int| 0 <= j < i ==> (#[trigger] r@[j])@ == self.slots@[j].0@,
            decreases self.slots@.len() - i,
        {
            r.push(self.slots[i].0.clone());
            i = i + 1;
        }
        proof {
            assert forall|i: int| 0 <= i < r@.len() implies self@.contains_key(
                (#[trigger] r@[i])@,
            ) by {
                lemma_table_at(self.slots@, i);
            }
            assert forall|e: RibEntryView| self@.contains_key(e) implies exists|i: int|
                0 <= i < r@.len() && (#[trigger] r@[i])@ == e by {
                let k = spec_slot(self.slots@, e);
                assert(r@[k]@ == e);
            }
            assert forall|i: int, j: int| 0 <= i < j < r@.len() implies (#[trigger] r@[i])@ != (
            #[trigger] r@[j])@ by {
                assert(self.slots@[i].0@ != self.slots@[j].0@);
            }
        }
        r
    }

    /// Puts into the table every route of `source` whose AS path does not
    /// contain `barred`. Routes that the table held keep their marks; the
    /// others come in marked new.
    pub fn install_from(&mut self, source: &Rib, barred: AutonomousSystemNumber)
        ensures
            final(self)@ == spec_merge(old(self)@, spec_loop_free_routes(source@, barred)),
    {
        proof {
            use_type_invariant(source);
        }
        let mut i: usize = 0;
        assert(self@ =~= spec_merge(old(self)@, spec_loop_free_among(source.slots@, barred, 0)));
        while i < source.slots.len()
            invariant
                i <= source.slots@.len(),
                spec_distinct(source.slots@),
                self@ == spec_merge(
                    old(self)@,
                    spec_loop_free_among(source.slots@, barred, i as int),
                ),
            decreases source.slots@.len() - i,
        {
            let ghost before = self@;
            let ghost added = spec_loop_free_among(source.slots@, barred, i as int);
            let ghost next = spec_loop_free_among(source.slots@, barred, i + 1);
            if !source.slots[i].0.does_contain_as(barred) {
                self.insert(source.slots[i].0.clone());
                proof {
                    let e = source.slots@[i as int].0@;
                    assert(next =~= added.insert(e));
                    assert(self@ =~= spec_merge(old(self)@, next));
                }
            } else {
                assert(next =~= added);
            }
            i = i + 1;
        }
        proof {
            let all = spec_loop_free_among(source.slots@, barred, source.slots@.len() as int);
            let want = spec_loop_free_routes(source@, barred);
            assert forall|e: RibEntryView| all.contains(e) <==> want.contains(e) by {
                if all.contains(e) {
                    let j = choose|j: int|
                        0 <= j < source.slots@.len() && (#[trigger] source.slots@[j]).0@ == e;
                    lemma_table_at(source.slots@, j);
                }
                if want.contains(e) {
                    let k = spec_slot(source.slots@, e);
                    assert(source.slots@[k].0@ == e);
                }
            }
            assert(all =~= want);
        }
    }

    /// Puts into the table a route to each of `networks` with
    /// `path_attributes`.
    pub fn install_networks(
        &mut self,
        networks: &Vec<Ipv4Network>,
        path_attributes: &Vec<PathAttribute>,
    )
        ensures
            final(self)@ == spec_merge(
                old(self)@,
                spec_routes_to(networks@, spec_attribute_views(path_attributes@)),
            ),
    {
        let ghost attributes = spec_attribute_views(path_attributes@);
        let mut i: usize = 0;
        assert(self@ =~= spec_merge(old(self)@, spec_routes_to(networks@.take(0), attributes)));
        while i < networks.len()
            invariant
                i <= networks@.len(),
                attributes == spec_attribute_views(path_attributes@),
                self@ == spec_merge(
                    old(self)@,
                    spec_routes_to(networks@.take(i as int), attributes),
                ),
            decreases networks@.len() - i,
        {
            let entry = RibEntry {
                network_address: networks[i],
                path_attributes: copy_attributes(path_attributes),
            };
            let ghost added = spec_routes_to(networks@.take(i as int), attributes);
            let ghost next = spec_routes_to(networks@.take(i + 1), attributes);
            proof {
                let shorter = networks@.take(i as int);
                let longer = networks@.take(i + 1);
                assert forall|e: RibEntryView| next.contains(e) <==> added.insert(entry@).contains(
                    e,
                ) by {
                    if next.contains(e) {
                        let k = choose|k: int|
                            0 <= k < longer.len() && longer[k] == e.network_address;
                        if k < i {
                            assert(shorter[k] == e.network_address);
                        }
                    }
                    if added.contains(e) {
                        let k = choose|k: int|
                            0 <= k < shorter.len() && shorter[k] == e.network_address;
                        assert(longer[k] == e.network_address);
                    }
                    if e == entry@ {
                        assert(longer[i as int] == e.network_address);
                    }
                }
                assert(next =~= added.insert(entry@));
            }
            self.insert(entry);
            assert(self@ =~= spec_merge(old(self)@, next));
            i = i + 1;
        }
        assert(networks@.take(networks@.len() as int) =~= networks@);
    }

    fn is_within(&self, other: &Rib) -> (r: bool)
        ensures
            r == (forall|e: RibEntryView| #[trigger]
                self@.contains_key(e) ==> other@.contains_key(e) && other@[e] == self@[e]),
    {
        proof {
            use_type_invariant(self);
        }
        let mut i: usize = 0;
        while i < self.slots.len()
            invariant
                i <= self.slots@.len(),
                spec_distinct(self.slots@),
                forall|j: int|
                    0 <= j < i ==> other@.contains_key((#[trigger] self.slots@[j]).0@)
                        && other@[self.slots@[j].0@] == self.slots@[j].1,
            decreases self.slots@.len() - i,
        {
            proof {
                lemma_table_at(self.slots@, i as int);
            }
            let ghost e = self.slots@[i as int].0@;
            assert(self@.contains_key(e) && self@[e] == self.slots@[i as int].1);
            match other.status(&self.slots[i].0) {
                None => {
                    assert(!other@.contains_key(e));
                    return false;
                },
                Some(status) => {
                    if status != self.slots[i].1 {
                        assert(other@[e] != self@[e]);
                        return false;
                    }
                },
            }
            i = i + 1;
        }
        proof {
            assert forall|e: RibEntryView| #[trigger] self@.contains_key(e) implies other@.contains_key(
                e,
            ) && other@[e] == self@[e] by {
                let k = spec_slot(self.slots@, e);
                lemma_table_at(self.slots@, k);
            }
        }
        true
    }

    /// Whether the two tables hold the same routes with the same marks.
    pub fn equals(&self, other: &Rib) -> (r: bool)
        ensures
            r == (self@ == other@),
    {
        let r = self.is_within(other) && other.is_within(self);
        proof {
            if r {
                assert(self@ =~= other@);
            }
        }
        r
    }
}

impl PartialEq for Rib {
    fn eq(&self, other: &Self) -> (r: bool) {
        self.equals(other)
    }
}

impl PartialEqSpecImpl for Rib {
    open spec fn obeys_eq_spec() -> bool {
        true
    }

    open spec fn eq_spec(&self, other: &Self) -> bool {
        self@ == other@
    }
}

impl Clone for Rib {
    fn clone(&self) -> (r: Self)
        ensures
            r@ == self@,
    {
        proof {
            use_type_invariant(self);
        }
        let mut slots: Vec<(RibEntry, RibEntryStatus)> = Vec::new();
        let mut i: usize = 0;
        while i < self.slots.len()
            invariant
                i <= self.slots@.len(),
                slots@.len() == i,
                forall|j: int|
                    0 <= j < i ==> (#[trigger] slots@[j]).0@ == self.slots@[j].0@ && slots@[j].1
                        == self.slots@[j].1,
            decreases self.slots@.len() - i,
        {
            slots.push((self.slots[i].0.clone(), self.slots[i].1));
            i = i + 1;
        }
        proof {
            assert forall|a: int, b: int| 0 <= a < b < slots@.len() implies (#[trigger] slots@[a]).0@
                != (#[trigger] slots@[b]).0@ by {
                assert(self.slots@[a].0@ != self.slots@[b].0@);
            }
            let mine = spec_table(self.slots@);
            let copy = spec_table(slots@);
            assert forall|e: RibEntryView| mine.contains_key(e) <==> copy.contains_key(e) by {
                if spec_has(slots@, e) {
                    let k = spec_slot(slots@, e);
                    assert(self.slots@[k].0@ == e);
                }
                if spec_has(self.slots@, e) {
                    let k = spec_slot(self.slots@, e);
                    assert(slots@[k].0@ == e);
                }
            }
            assert forall|e: RibEntryView| mine.contains_key(e) implies mine[e] == copy[e] by {
                let k = spec_slot(self.slots@, e);
                lemma_table_at(self.slots@, k);
                assert(slots@[k].0@ == e);
                lemma_table_at(slots@, k);
            }
            assert(mine =~= copy);
        }
        Rib { slots }
    }
}

/// The routes of `kernel_routes` that are to `network`, in their order.
pub open spec fn spec_matching_routes(
    kernel_routes: Seq<Ipv4Network>,
    network: Ipv4Network,
) -> Seq<Ipv4Network>
    decreases kernel_routes.len(),
{
    if kernel_routes.len() == 0 {
        Seq::empty()
    } else if kernel_routes.last() == network {
        spec_matching_routes(kernel_routes.drop_last(), network).push(network)
    } else {
        spec_matching_routes(kernel_routes.drop_last(), network)
    }
}

/// Every matching route is the network that was looked up, and there is one
/// exactly where the kernel's table has a route to that network.
pub proof fn lemma_matching_routes(kernel_routes: Seq<Ipv4Network>, network: Ipv4Network)
    ensures
        forall|k: int|
            0 <= k < spec_matching_routes(kernel_routes, network).len() ==> (
            #[trigger] spec_matching_routes(kernel_routes, network)[k]) == network,
        spec_matching_routes(kernel_routes, network).len() > 0 <==> kernel_routes.contains(
            network,
        ),
    decreases kernel_routes.len(),
{
    if kernel_routes.len() > 0 {
        let front = kernel_routes.drop_last();
        lemma_matching_routes(front, network);
        if kernel_routes.contains(network) {
            let k = choose|k: int| 0 <= k < kernel_routes.len() && kernel_routes[k] == network;
            if k < front.len() {
                assert(front[k] == network);
            }
        }
        if front.contains(network) {
            let k = choose|k: int| 0 <= k < front.len() && front[k] == network;
            assert(kernel_routes[k] == network);
        }
        if kernel_routes.last() == network {
            assert(kernel_routes[kernel_routes.len() - 1] == network);
        }
    }
}

/// The attributes of a route that a speaker originates itself: origin IGP,
/// an empty AS sequence, and its own address as the next hop.
pub open spec fn spec_local_attributes(local_ip: Ipv4Addr) -> Seq<PathAttributeView> {
    seq![
        PathAttributeView::Origin(Origin::Igp),
        PathAttributeView::AsPath(AsPathView::AsSequence(Seq::empty())),
        PathAttributeView::NextHop(local_ip),
    ]
}

/// The routes that a speaker originates: one to each network that it is to
/// advertise and that the kernel's table has a route to, with the attributes
/// of a route of its own.
pub open spec fn spec_local_routes(
    networks: Seq<Ipv4Network>,
    kernel_routes: Seq<Ipv4Network>,
    local_ip: Ipv4Addr,
) -> Set<RibEntryView> {
    Set::new(
        |e: RibEntryView|
            e.path_attributes == spec_local_attributes(local_ip) && networks.contains(
                e.network_address,
            ) && kernel_routes.contains(e.network_address),
    )
}

/// What the kernel is told of a route: its network and its first next hop,
/// and nothing where it has no next hop.
pub open spec fn spec_kernel_route(entry: RibEntryView) -> Option<KernelRoute> {
    match spec_first_next_hop(entry.path_attributes) {
        Some(gateway) => Some(KernelRoute { destination: entry.network_address, gateway }),
        None => None,
    }
}

/// What the kernel is told of the routes of a table.
pub open spec fn spec_kernel_routes(table: Map<RibEntryView, RibEntryStatus>) -> Set<KernelRoute> {
    Set::new(
        |k: KernelRoute|
            exists|e: RibEntryView| #[trigger]
                table.contains_key(e) && spec_kernel_route(e) == Some(k),
    )
}

spec fn spec_kernel_routes_among(slots: Seq<(RibEntry, RibEntryStatus)>, until: int) -> Set<
    KernelRoute,
> {
    Set::new(
        |k: KernelRoute|
            exists|j: int|
                0 <= j < until && j < slots.len() && spec_kernel_route((#[trigger] slots[j]).0@)
                    == Some(k),
    )
}

/// A route for the kernel's table: a destination and the gateway to it.
#[derive(Debug, PartialEq, Eq, Clone, Copy, Hash, Structural)]
pub struct KernelRoute {
    pub destination: Ipv4Network,
    pub gateway: Ipv4Addr,
}

/// The routes of a speaker itself, from which it programs the kernel and
/// feeds its peers. No route in it has an AS path with the speaker's own AS
/// number.
#[derive(Debug, PartialEq)]
pub struct LocRib {
    rib: Rib,
    local_as_number: AutonomousSystemNumber,
}

impl View for LocRib {
    type V = Map<RibEntryView, RibEntryStatus>;

    closed spec fn view(&self) -> Map<RibEntryView, RibEntryStatus> {
        self.rib@
    }
}

impl LocRib {
    #[verifier::type_invariant]
    spec fn inv(self) -> bool {
        spec_loop_free(self.rib@, self.local_as_number)
    }

    /// The AS number of the speaker.
    pub closed spec fn spec_local_as(&self) -> AutonomousSystemNumber {
        self.local_as_number
    }

    /// The routes of `kernel_routes` that are to `network`.
    pub fn lookup_kernel_routing_table(
        network: Ipv4Network,
        kernel_routes: &Vec<Ipv4Network>,
    ) -> (r: Vec<Ipv4Network>)
        ensures
            r@ == spec_matching_routes(kernel_routes@, network),
    {
        let mut results: Vec<Ipv4Network> = Vec::new();
        let mut i: usize = 0;
        while i < kernel_routes.len()
            invariant
                i <= kernel_routes@.len(),
                results@ == spec_matching_routes(kernel_routes@.take(i as int), network),
            decreases kernel_routes@.len() - i,
        {
            let destination = kernel_routes[i];
            proof {
                let next = kernel_routes@.take(i + 1);
                assert(next.drop_last() =~= kernel_routes@.take(i as int));
                assert(next.last() == destination);
            }
            if destination == network {
                results.push(destination);
            }
            i = i + 1;
        }
        assert(kernel_routes@.take(kernel_routes@.len() as int) =~= kernel_routes@);
        results
    }

    /// The table of a speaker that starts up: a route of its own to each
    /// network of `config.networks` that `kernel_routes` has a route to, each
    /// marked new. `kernel_routes` is what the kernel's table holds.
    pub fn new(config: &Config, kernel_routes: &Vec<Ipv4Network>) -> (r: Self)
        ensures
            r.spec_local_as() == config.local_as,
            r@ == spec_merge(
                Map::empty(),
                spec_local_routes(config.networks@, kernel_routes@, config.local_ip),
            ),
            spec_loop_free(r@, config.local_as),
    {
        let mut path_attributes: Vec<PathAttribute> = Vec::new();
        path_attributes.push(PathAttribute::Origin(Origin::Igp));
        path_attributes.push(PathAttribute::AsPath(AsPath::AsSequence(Vec::new())));
        path_attributes.push(PathAttribute::NextHop(config.local_ip));
        let ghost attributes = spec_local_attributes(config.local_ip);
        assert(spec_attribute_views(path_attributes@) =~= attributes);
        let mut rib = Rib::new();
        let mut i: usize = 0;
        assert(rib@ =~= spec_merge(
            Map::empty(),
            spec_local_routes(config.networks@.take(0), kernel_routes@, config.local_ip),
        ));
        while i < config.networks.len()
            invariant
                i <= config.networks@.len(),
                attributes == spec_local_attributes(config.local_ip),
                spec_attribute_views(path_attributes@) == attributes,
                rib@ == spec_merge(
                    Map::empty(),
                    spec_local_routes(
                        config.networks@.take(i as int),
                        kernel_routes@,
                        config.local_ip,
                    ),
                ),
            decreases config.networks@.len() - i,
        {
            let network = config.networks[i];
            let routes = LocRib::lookup_kernel_routing_table(network, kernel_routes);
            let ghost before = rib@;
            rib.install_networks(&routes, &path_attributes);
            proof {
                lemma_matching_routes(kernel_routes@, network);
                let shorter = config.networks@.take(i as int);
                let longer = config.networks@.take(i + 1);
                let done = spec_local_routes(shorter, kernel_routes@, config.local_ip);
                let next = spec_local_routes(longer, kernel_routes@, config.local_ip);
                let found = spec_routes_to(routes@, attributes);
                assert forall|e: RibEntryView| next.contains(e) <==> (done.contains(e)
                    || found.contains(e)) by {
                    if next.contains(e) {
                        let k = choose|k: int| 0 <= k < longer.len() && longer[k] == e.network_address;
                        if k < i {
                            assert(shorter[k] == e.network_address);
                        } else {
                            assert(e.network_address == network);
                            assert(routes@[0] == network);
                        }
                    }
                    if done.contains(e) {
                        let k = choose|k: int|
                            0 <= k < shorter.len() && shorter[k] == e.network_address;
                        assert(longer[k] == e.network_address);
                    }
                    if found.contains(e) {
                        let k = choose|k: int| 0 <= k < routes@.len() && routes@[k] == e.network_address;
                        assert(routes@[k] == network);
                        assert(longer[i as int] == network);
                    }
                }
                assert(rib@ =~= spec_merge(Map::empty(), next));
            }
            i = i + 1;
        }
        assert(config.networks@.take(config.networks@.len() as int) =~= config.networks@);
        proof {
            assert forall|e: RibEntryView| #[trigger] rib@.contains_key(e) implies !e.spec_contains_as(
                config.local_as,
            ) by {
                lemma_local_attributes_loop_free(config.local_ip, config.local_as);
            }
        }
        LocRib { rib, local_as_number: config.local_as }
    }

    /// The AS number of the speaker.
    pub fn local_as(&self) -> (r: AutonomousSystemNumber)
        ensures
            r == self.spec_local_as(),
    {
        self.local_as_number
    }

    /// Takes over every route of `adj_rib_in` whose AS path does not contain
    /// the speaker's own AS number. Routes that the table held keep their
    /// marks; the others come in marked new.
    pub fn install_from_adj_rib_in(&mut self, adj_rib_in: &AdjRibIn)
        ensures
            final(self).spec_local_as() == old(self).spec_local_as(),
            final(self)@ == spec_merge(
                old(self)@,
                spec_loop_free_routes(adj_rib_in.0@, old(self).spec_local_as()),
            ),
            spec_loop_free(final(self)@, final(self).spec_local_as()),
    {
        proof {
            use_type_invariant(&*self);
        }
        let mut rib = Rib::new();
        core::mem::swap(&mut self.rib, &mut rib);
        rib.install_from(&adj_rib_in.0, self.local_as_number);
        self.rib = rib;
    }

    /// The routes to hand to the kernel: for each route of the table that has
    /// a next hop, its network and its first next hop. Routes without a next
    /// hop are passed over. The order is not promised, nor that a route is
    /// listed once only.
    pub fn kernel_routes(&self) -> (r: Vec<KernelRoute>)
        ensures
            r@.to_set() == spec_kernel_routes(self@),
    {
        proof {
            use_type_invariant(&self.rib);
        }
        let mut r: Vec<KernelRoute> = Vec::new();
        let mut i: usize = 0;
        assert(r@.to_set() =~= spec_kernel_routes_among(self.rib.slots@, 0));
        while i < self.rib.slots.len()
            invariant
                i <= self.rib.slots@.len(),
                r@.to_set() == spec_kernel_routes_among(self.rib.slots@, i as int),
            decreases self.rib.slots@.len() - i,
        {
            let ghost before = r@;
            let ghost done = spec_kernel_routes_among(self.rib.slots@, i as int);
            let ghost next = spec_kernel_routes_among(self.rib.slots@, i + 1);
            match self.rib.slots[i].0.next_hop() {
                Some(gateway) => {
                    let route = KernelRoute {
                        destination: self.rib.slots[i].0.network_address,
                        gateway,
                    };
                    r.push(route);
                    proof {
                        assert(spec_kernel_route(self.rib.slots@[i as int].0@) == Some(route));
                        assert forall|k: KernelRoute| r@.to_set().contains(k) <==> next.contains(
                            k,
                        ) by {
                            if r@.contains(k) {
                                let x = choose|x: int| 0 <= x < r@.len() && r@[x] == k;
                                if x < before.len() {
                                    assert(before[x] == k);
                                    assert(before.to_set().contains(k));
                                }
                            }
                            if next.contains(k) {
                                let j = choose|j: int|
                                    0 <= j < i + 1 && j < self.rib.slots@.len()
                                        && spec_kernel_route((#[trigger] self.rib.slots@[j]).0@)
                                        == Some(k);
                                if j < i {
                                    assert(done.contains(k));
                                    assert(before.to_set().contains(k));
                                    let x = choose|x: int| 0 <= x < before.len() && before[x] == k;
                                    assert(r@[x] == k);
                                } else {
                                    assert(r@[before.len() as int] == k);
                                }
                            }
                        }
                        assert(r@.to_set() =~= next);
                    }
                },
                None => {
                    proof {
                        assert(spec_kernel_route(self.rib.slots@[i as int].0@).is_none());
                        assert(done =~= next);
                    }
                },
            }
            i = i + 1;
        }
        proof {
            let all = spec_kernel_routes_among(self.rib.slots@, self.rib.slots@.len() as int);
            let want = spec_kernel_routes(self@);
            assert forall|k: KernelRoute| all.contains(k) <==> want.contains(k) by {
                if all.contains(k) {
                    let j = choose|j: int|
                        0 <= j < self.rib.slots@.len() && j < self.rib.slots@.len()
                            && spec_kernel_route((#[trigger] self.rib.slots@[j]).0@) == Some(k);
                    lemma_table_at(self.rib.slots@, j);
                    assert(self@.contains_key(self.rib.slots@[j].0@));
                }
                if want.contains(k) {
                    let e = choose|e: RibEntryView| #[trigger]
                        self@.contains_key(e) && spec_kernel_route(e) == Some(k);
                    let j = spec_slot(self.rib.slots@, e);
                    assert(self.rib.slots@[j].0@ == e);
                }
            }
            assert(all =~= want);
        }
        r
    }

    /// Whether a route of the table is marked new.
    pub fn does_contain_new_route(&self) -> (r: bool)
        ensures
            r == spec_has_new(self@),
    {
        self.rib.does_contain_new_route()
    }

    /// Marks every route as unchanged.
    pub fn update_to_all_unchanged(&mut self)
        ensures
            final(self).spec_local_as() == old(self).spec_local_as(),
            final(self)@ == spec_all_unchanged(old(self)@),
            !spec_has_new(final(self)@),
    {
        proof {
            use_type_invariant(&*self);
        }
        let mut rib = Rib::new();
        core::mem::swap(&mut self.rib, &mut rib);
        rib.update_to_all_unchanged();
        self.rib = rib;
    }

    /// The table itself. None of its routes goes through the speaker's own
    /// AS.
    pub fn rib(&self) -> (r: &Rib)
        ensures
            r@ == self@,
            spec_loop_free(self@, self.spec_local_as()),
    {
        proof {
            use_type_invariant(self);
        }
        &self.rib
    }

    /// The routes of the table, each once, in no order that is promised.
    pub fn routes(&self) -> (r: Vec<RibEntry>)
        ensures
            forall|i: int| 0 <= i < r@.len() ==> self@.contains_key((#[trigger] r@[i])@),
            forall|e: RibEntryView|
                self@.contains_key(e) ==> exists|i: int| 0 <= i < r@.len() && (#[trigger] r@[i])@ == e,
            forall|i: int, j: int|
                0 <= i < j < r@.len() ==> (#[trigger] r@[i])@ != (#[trigger] r@[j])@,
    {
        self.rib.routes()
    }
}

impl Clone for LocRib {
    fn clone(&self) -> (r: Self)
        ensures
            r@ == self@,
            r.spec_local_as() == self.spec_local_as(),
    {
        proof {
            use_type_invariant(self);
        }
        LocRib { rib: self.rib.clone(), local_as_number: self.local_as_number }
    }
}

/// A route that a speaker originates has an empty AS path, which contains no
/// AS number.
pub proof fn lemma_local_attributes_loop_free(local_ip: Ipv4Addr, a: AutonomousSystemNumber)
    ensures
        forall|e: RibEntryView|
            e.path_attributes == spec_local_attributes(local_ip) ==> !(
            #[trigger] e.spec_contains_as(a)),
{
    let attributes = spec_local_attributes(local_ip);
    assert(attributes.drop_first()[0] == attributes[1]);
    assert(spec_first_as_path(attributes.drop_first()) == Some(
        AsPathView::AsSequence(Seq::<AutonomousSystemNumber>::empty()),
    ));
    assert(spec_first_as_path(attributes) == Some(
        AsPathView::AsSequence(Seq::<AutonomousSystemNumber>::empty()),
    ));
}

/// Routes that share their attributes: the attributes, and the networks of
/// the routes.
pub struct RouteGroup {
    pub path_attributes: Seq<PathAttributeView>,
    pub networks: Seq<Ipv4Network>,
}

/// Whether `groups` sort `routes` by their attributes: every group holds at
/// least one network, and none twice; every network of a group is that of a
/// route with the group's attributes; every route is in the group of its
/// attributes; and no two groups have the same attributes.
pub open spec fn spec_is_grouping(routes: Set<RibEntryView>, groups: Seq<RouteGroup>) -> bool {
    &&& forall|g: int| 0 <= g < groups.len() ==> (#[trigger] groups[g]).networks.len() > 0
    &&& forall|g: int| 0 <= g < groups.len() ==> (#[trigger] groups[g]).networks.no_duplicates()
    &&& forall|g: int, k: int|
        0 <= g < groups.len() && 0 <= k < groups[g].networks.len() ==> routes.contains(
            RibEntryView {
                network_address: #[trigger] groups[g].networks[k],
                path_attributes: groups[g].path_attributes,
            },
        )
    &&& forall|e: RibEntryView|
        #![trigger routes.contains(e)]
        routes.contains(e) ==> exists|g: int|
            0 <= g < groups.len() && (#[trigger] groups[g]).path_attributes == e.path_attributes
                && groups[g].networks.contains(e.network_address)
    &&& forall|g: int, h: int|
        0 <= g < h < groups.len() ==> (#[trigger] groups[g]).path_attributes != (
        #[trigger] groups[h]).path_attributes
}

/// What each of the messages holds, in order.
pub open spec fn spec_update_views(messages: Seq<UpdateMessage>) -> Seq<UpdateMessageView> {
    Seq::new(messages.len(), |i: int| messages[i]@)
}

/// Whether `messages` announce `groups`, one message for each group in
/// order: the networks of the group, with the attributes of the group as the
/// speaker hands them on, and no withdrawn routes.
pub open spec fn spec_announces(
    messages: Seq<UpdateMessageView>,
    groups: Seq<RouteGroup>,
    local_ip: Ipv4Addr,
    local_as: AutonomousSystemNumber,
) -> bool {
    &&& messages.len() == groups.len()
    &&& forall|g: int|
        0 <= g < groups.len() ==> (#[trigger] messages[g]) == UpdateMessageView::spec_new(
            spec_rewrite_attributes(groups[g].path_attributes, local_ip, local_as),
            groups[g].networks,
            Seq::empty(),
        )
}

struct Group {
    path_attributes: Vec<PathAttribute>,
    networks: Vec<Ipv4Network>,
}

impl View for Group {
    type V = RouteGroup;

    closed spec fn view(&self) -> RouteGroup {
        RouteGroup {
            path_attributes: spec_attribute_views(self.path_attributes@),
            networks: self.networks@,
        }
    }
}

spec fn spec_group_views(groups: Seq<Group>) -> Seq<RouteGroup> {
    Seq::new(groups.len(), |g: int| groups[g]@)
}

spec fn spec_groups_among(
    slots: Seq<(RibEntry, RibEntryStatus)>,
    until: int,
    groups: Seq<RouteGroup>,
) -> bool {
    &&& 0 <= until <= slots.len()
    &&& forall|g: int| 0 <= g < groups.len() ==> (#[trigger] groups[g]).networks.len() > 0
    &&& forall|g: int| 0 <= g < groups.len() ==> (#[trigger] groups[g]).networks.no_duplicates()
    &&& forall|g: int, k: int|
        0 <= g < groups.len() && 0 <= k < groups[g].networks.len() ==> spec_has(
            slots.take(until),
            RibEntryView {
                network_address: #[trigger] groups[g].networks[k],
                path_attributes: groups[g].path_attributes,
            },
        )
    &&& forall|j: int|
        0 <= j < until ==> exists|g: int|
            0 <= g < groups.len() && (#[trigger] groups[g]).path_attributes == (
            #[trigger] slots[j]).0@.path_attributes && groups[g].networks.contains(
                slots[j].0@.network_address,
            )
    &&& forall|g: int, h: int|
        0 <= g < h < groups.len() ==> (#[trigger] groups[g]).path_attributes != (
        #[trigger] groups[h]).path_attributes
}

proof fn lemma_groups_extend(
    slots: Seq<(RibEntry, RibEntryStatus)>,
    i: int,
    groups: Seq<RouteGroup>,
    g: int,
)
    requires
        spec_distinct(slots),
        0 <= i < slots.len(),
        spec_groups_among(slots, i, groups),
        0 <= g < groups.len(),
        groups[g].path_attributes == slots[i].0@.path_attributes,
    ensures
        spec_groups_among(
            slots,
            i + 1,
            groups.update(
                g,
                RouteGroup {
                    path_attributes: groups[g].path_attributes,
                    networks: groups[g].networks.push(slots[i].0@.network_address),
                },
            ),
        ),
{
    let network = slots[i].0@.network_address;
    let grown = RouteGroup {
        path_attributes: groups[g].path_attributes,
        networks: groups[g].networks.push(network),
    };
    let after = groups.update(g, grown);
    let shorter = slots.take(i);
    let longer = slots.take(i + 1);
    assert forall|h: int| 0 <= h < after.len() implies (#[trigger] after[h]).networks.len()
        > 0 by {
        if h != g {
            assert(after[h] == groups[h]);
        }
    }
    assert forall|h: int| 0 <= h < after.len() implies (
    #[trigger] after[h]).networks.no_duplicates() by {
        if h != g {
            assert(after[h] == groups[h]);
        } else {
            let old_networks = groups[g].networks;
            assert(old_networks.no_duplicates());
            assert forall|a: int, b: int|
                0 <= a < grown.networks.len() && 0 <= b < grown.networks.len() && a
                    != b implies grown.networks[a] != grown.networks[b] by {
                if a == old_networks.len() || b == old_networks.len() {
                    let k = if a == old_networks.len() {
                        b
                    } else {
                        a
                    };
                    if old_networks[k] == network {
                        let e = RibEntryView {
                            network_address: groups[g].networks[k],
                            path_attributes: groups[g].path_attributes,
                        };
                        assert(spec_has(shorter, e));
                        let j = spec_slot(shorter, e);
                        assert(shorter[j] == slots[j]);
                        assert(slots[j].0@ == slots[i].0@);
                        assert(slots[j].0@ != slots[i].0@);
                    }
                }
            }
        }
    }
    assert forall|h: int, k: int|
        0 <= h < after.len() && 0 <= k < after[h].networks.len() implies spec_has(
        longer,
        RibEntryView {
            network_address: #[trigger] after[h].networks[k],
            path_attributes: after[h].path_attributes,
        },
    ) by {
        let e = RibEntryView {
            network_address: after[h].networks[k],
            path_attributes: after[h].path_attributes,
        };
        if h == g && k == groups[g].networks.len() {
            assert(longer[i].0@ == e);
        } else {
            assert(after[h].networks[k] == groups[h].networks[k]);
            assert(spec_has(
                shorter,
                RibEntryView {
                    network_address: groups[h].networks[k],
                    path_attributes: groups[h].path_attributes,
                },
            ));
            let j = spec_slot(shorter, e);
            assert(longer[j] == shorter[j]);
            assert(longer[j].0@ == e);
        }
    }
    assert forall|j: int| 0 <= j < i + 1 implies exists|h: int|
        0 <= h < after.len() && (#[trigger] after[h]).path_attributes == (
        #[trigger] slots[j]).0@.path_attributes && after[h].networks.contains(
            slots[j].0@.network_address,
        ) by {
        if j == i {
            assert(grown.networks[groups[g].networks.len() as int] == network);
            assert(after[g].networks.contains(network));
        } else {
            let h = choose|h: int|
                0 <= h < groups.len() && (#[trigger] groups[h]).path_attributes
                    == slots[j].0@.path_attributes && groups[h].networks.contains(
                    slots[j].0@.network_address,
                );
            let k = choose|k: int|
                0 <= k < groups[h].networks.len() && groups[h].networks[k]
                    == slots[j].0@.network_address;
            if h == g {
                assert(grown.networks[k] == slots[j].0@.network_address);
            } else {
                assert(after[h] == groups[h]);
            }
            assert(after[h].networks.contains(slots[j].0@.network_address));
        }
    }
    assert forall|a: int, b: int| 0 <= a < b < after.len() implies (
    #[trigger] after[a]).path_attributes != (#[trigger] after[b]).path_attributes by {
        assert(after[a].path_attributes == groups[a].path_attributes);
        assert(after[b].path_attributes == groups[b].path_attributes);
    }
}

proof fn lemma_groups_open(
    slots: Seq<(RibEntry, RibEntryStatus)>,
    i: int,
    groups: Seq<RouteGroup>,
)
    requires
        spec_distinct(slots),
        0 <= i < slots.len(),
        spec_groups_among(slots, i, groups),
        forall|g: int|
            0 <= g < groups.len() ==> (#[trigger] groups[g]).path_attributes
                != slots[i].0@.path_attributes,
    ensures
        spec_groups_among(
            slots,
            i + 1,
            groups.push(
                RouteGroup {
                    path_attributes: slots[i].0@.path_attributes,
                    networks: seq![slots[i].0@.network_address],
                },
            ),
        ),
{
    let network = slots[i].0@.network_address;
    let opened = RouteGroup {
        path_attributes: slots[i].0@.path_attributes,
        networks: seq![network],
    };
    let after = groups.push(opened);
    let shorter = slots.take(i);
    let longer = slots.take(i + 1);
    assert forall|h: int| 0 <= h < after.len() implies (#[trigger] after[h]).networks.len()
        > 0 by {
        if h < groups.len() {
            assert(after[h] == groups[h]);
        }
    }
    assert forall|h: int| 0 <= h < after.len() implies (
    #[trigger] after[h]).networks.no_duplicates() by {
        if h < groups.len() {
            assert(after[h] == groups[h]);
        }
    }
    assert forall|h: int, k: int|
        0 <= h < after.len() && 0 <= k < after[h].networks.len() implies spec_has(
        longer,
        RibEntryView {
            network_address: #[trigger] after[h].networks[k],
            path_attributes: after[h].path_attributes,
        },
    ) by {
        let e = RibEntryView {
            network_address: after[h].networks[k],
            path_attributes: after[h].path_attributes,
        };
        if h == groups.len() {
            assert(longer[i].0@ == e);
        } else {
            assert(after[h] == groups[h]);
            assert(spec_has(
                shorter,
                RibEntryView {
                    network_address: groups[h].networks[k],
                    path_attributes: groups[h].path_attributes,
                },
            ));
            let j = spec_slot(shorter, e);
            assert(longer[j] == shorter[j]);
            assert(longer[j].0@ == e);
        }
    }
    assert forall|j: int| 0 <= j < i + 1 implies exists|h: int|
        0 <= h < after.len() && (#[trigger] after[h]).path_attributes == (
        #[trigger] slots[j]).0@.path_attributes && after[h].networks.contains(
            slots[j].0@.network_address,
        ) by {
        if j == i {
            assert(opened.networks[0] == network);
            assert(after[groups.len() as int].networks.contains(network));
        } else {
            let h = choose|h: int|
                0 <= h < groups.len() && (#[trigger] groups[h]).path_attributes
                    == slots[j].0@.path_attributes && groups[h].networks.contains(
                    slots[j].0@.network_address,
                );
            assert(after[h] == groups[h]);
        }
    }
    assert forall|a: int, b: int| 0 <= a < b < after.len() implies (
    #[trigger] after[a]).path_attributes != (#[trigger] after[b]).path_attributes by {
        assert(after[a] == groups[a]);
        if b < groups.len() {
            assert(after[b] == groups[b]);
        }
    }
}

proof fn lemma_groups_done(slots: Seq<(RibEntry, RibEntryStatus)>, groups: Seq<RouteGroup>)
    requires
        spec_distinct(slots),
        spec_groups_among(slots, slots.len() as int, groups),
    ensures
        spec_is_grouping(spec_table(slots).dom(), groups),
{
    let routes = spec_table(slots).dom();
    assert(slots.take(slots.len() as int) =~= slots);
    assert forall|e: RibEntryView| #![trigger routes.contains(e)] routes.contains(e) implies exists|
        g: int,
    |
        0 <= g < groups.len() && (#[trigger] groups[g]).path_attributes == e.path_attributes
            && groups[g].networks.contains(e.network_address) by {
        let j = spec_slot(slots, e);
        assert(slots[j].0@ == e);
    }
}

/// The routes that a speaker has chosen for one peer.
#[derive(Debug, PartialEq)]
pub struct AdjRibOut(pub Rib);

impl AdjRibOut {
    /// A table without routes.
    pub fn new() -> (r: Self)
        ensures
            r.0@ == Map::<RibEntryView, RibEntryStatus>::empty(),
    {
        AdjRibOut(Rib::new())
    }

    /// Takes over every route of `loc_rib` whose AS path does not contain
    /// the AS number of the peer, `config.remote_as`. Routes that the table
    /// held keep their marks; the others come in marked new. So no route
    /// comes in that the peer would see itself in.
    pub fn install_from_loc_rib(&mut self, loc_rib: &LocRib, config: &Config)
        ensures
            final(self).0@ == spec_merge(
                old(self).0@,
                spec_loop_free_routes(loc_rib@, config.remote_as),
            ),
            spec_loop_free(old(self).0@, config.remote_as) ==> spec_loop_free(
                final(self).0@,
                config.remote_as,
            ),
    {
        self.0.install_from(&loc_rib.rib, config.remote_as);
    }

    fn group_routes(&self) -> (groups: Vec<Group>)
        ensures
            spec_is_grouping(self.0@.dom(), spec_group_views(groups@)),
    {
        proof {
            use_type_invariant(&self.0);
        }
        let mut groups: Vec<Group> = Vec::new();
        let mut i: usize = 0;
        assert(spec_groups_among(self.0.slots@, 0, spec_group_views(groups@)));
        while i < self.0.slots.len()
            invariant
                i <= self.0.slots@.len(),
                spec_distinct(self.0.slots@),
                spec_groups_among(self.0.slots@, i as int, spec_group_views(groups@)),
            decreases self.0.slots@.len() - i,
        {
            let entry = &self.0.slots[i].0;
            let ghost before = spec_group_views(groups@);
            let mut g: usize = 0;
            let mut found = false;
            while g < groups.len()
                invariant_except_break
                    !found,
                    forall|h: int|
                        0 <= h < g ==> (#[trigger] before[h]).path_attributes
                            != entry@.path_attributes,
                invariant
                    g <= groups@.len(),
                    before == spec_group_views(groups@),
                ensures
                    g <= groups@.len(),
                    before == spec_group_views(groups@),
                    found ==> g < groups@.len() && before[g as int].path_attributes
                        == entry@.path_attributes,
                    !found ==> forall|h: int|
                        0 <= h < groups@.len() ==> (#[trigger] before[h]).path_attributes
                            != entry@.path_attributes,
                decreases groups@.len() - g,
            {
                if same_attributes(&groups[g].path_attributes, &entry.path_attributes) {
                    assert(before[g as int] == groups@[g as int]@);
                    found = true;
                    break ;
                }
                assert(before[g as int] == groups@[g as int]@);
                g = g + 1;
            }
            if found {
                let group = &mut groups[g];
                group.networks.push(entry.network_address);
                proof {
                    lemma_groups_extend(self.0.slots@, i as int, before, g as int);
                    assert(spec_group_views(groups@) =~= before.update(
                        g as int,
                        RouteGroup {
                            path_attributes: before[g as int].path_attributes,
                            networks: before[g as int].networks.push(entry@.network_address),
                        },
                    ));
                }
            } else {
                let mut networks: Vec<Ipv4Network> = Vec::new();
                networks.push(entry.network_address);
                groups.push(Group { path_attributes: copy_attributes(&entry.path_attributes), networks });
                proof {
                    lemma_groups_open(self.0.slots@, i as int, before);
                    assert(spec_group_views(groups@) =~= before.push(
                        RouteGroup {
                            path_attributes: entry@.path_attributes,
                            networks: seq![entry@.network_address],
                        },
                    ));
                }
            }
            i = i + 1;
        }
        proof {
            lemma_groups_done(self.0.slots@, spec_group_views(groups@));
        }
        groups
    }

    /// The Update messages that announce the routes of the table to the
    /// peer: the routes are sorted by their attributes, and each group makes
    /// one message, which announces the networks of the group with the
    /// attributes of the group as the speaker hands them on: `local_as` added
    /// to every AS path, and every next hop replaced by `local_ip`. Neither
    /// the order of the messages nor that of the networks in a message is
    /// promised.
    pub fn create_update_messages(
        &self,
        local_ip: Ipv4Addr,
        local_as: AutonomousSystemNumber,
    ) -> (r: Vec<UpdateMessage>)
        ensures
            exists|groups: Seq<RouteGroup>|
                spec_is_grouping(self.0@.dom(), groups) && #[trigger] spec_announces(
                    spec_update_views(r@),
                    groups,
                    local_ip,
                    local_as,
                ),
    {
        let mut groups = self.group_routes();
        let ghost sorted = spec_group_views(groups@);
        let mut messages: Vec<UpdateMessage> = Vec::new();
        let mut g: usize = groups.len();
        while g > 0
            invariant
                g == groups@.len(),
                g <= sorted.len(),
                forall|h: int| 0 <= h < sorted.len() ==> (#[trigger] sorted[h]).networks.len() > 0,
                spec_group_views(groups@) == sorted.take(g as int),
                messages@.len() == sorted.len() - g,
                forall|k: int|
                    0 <= k < messages@.len() ==> (#[trigger] messages@[k])@
                        == UpdateMessageView::spec_new(
                        spec_rewrite_attributes(
                            sorted[sorted.len() - 1 - k].path_attributes,
                            local_ip,
                            local_as,
                        ),
                        sorted[sorted.len() - 1 - k].networks,
                        Seq::empty(),
                    ),
            decreases g,
        {
            let ghost before = groups@;
            let group = groups.pop().unwrap();
            proof {
                assert(spec_group_views(before)[g - 1] == group@);
                assert(spec_group_views(groups@) =~= sorted.take(g - 1));
                assert(sorted.take(g as int)[g - 1] == sorted[g - 1]);
                assert(group@ == sorted[g - 1]);
            }
            let mut route = RibEntry {
                network_address: group.networks[0],
                path_attributes: group.path_attributes,
            };
            route.append_as_path(local_as);
            route.change_next_hop(local_ip);
            messages.push(UpdateMessage::new(route.path_attributes, group.networks, Vec::new()));
            g = g - 1;
        }
        let ghost backwards = spec_update_views(messages@);
        let mut r: Vec<UpdateMessage> = Vec::new();
        let mut k: usize = messages.len();
        while k > 0
            invariant
                k == messages@.len(),
                k <= backwards.len(),
                backwards.len() == sorted.len(),
                spec_update_views(messages@) == backwards.take(k as int),
                r@.len() == backwards.len() - k,
                forall|x: int|
                    0 <= x < r@.len() ==> (#[trigger] r@[x])@ == backwards[backwards.len() - 1 - x],
            decreases k,
        {
            let ghost before = messages@;
            let message = messages.pop().unwrap();
            proof {
                assert(spec_update_views(before)[k - 1] == message@);
                assert(backwards.take(k as int)[k - 1] == backwards[k - 1]);
                assert(spec_update_views(messages@) =~= backwards.take(k - 1));
            }
            r.push(message);
            k = k - 1;
        }
        proof {
            let views = spec_update_views(r@);
            assert forall|x: int| 0 <= x < sorted.len() implies (#[trigger] views[x])
                == UpdateMessageView::spec_new(
                spec_rewrite_attributes(sorted[x].path_attributes, local_ip, local_as),
                sorted[x].networks,
                Seq::empty(),
            ) by {
                assert(views[x] == r@[x]@);
                let y = backwards.len() - 1 - x;
            }
            assert(spec_announces(views, sorted, local_ip, local_as));
        }
        r
    }

    /// Puts the route into the table, as `Rib::insert` does.
    pub fn insert(&mut self, entry: RibEntry)
        ensures
            final(self).0@ == spec_insert(old(self).0@, entry@),
    {
        self.0.insert(entry);
    }

    /// Whether a route of the table is marked new.
    pub fn does_contain_new_route(&self) -> (r: bool)
        ensures
            r == spec_has_new(self.0@),
    {
        self.0.does_contain_new_route()
    }

    /// Marks every route as unchanged.
    pub fn update_to_all_unchanged(&mut self)
        ensures
            final(self).0@ == spec_all_unchanged(old(self).0@),
            !spec_has_new(final(self).0@),
    {
        self.0.update_to_all_unchanged();
    }
}

impl Clone for AdjRibOut {
    fn clone(&self) -> (r: Self)
        ensures
            r.0@ == self.0@,
    {
        AdjRibOut(self.0.clone())
    }
}

/// The routes that one peer has announced.
#[derive(Debug, PartialEq)]
pub struct AdjRibIn(pub Rib);

impl Clone for AdjRibIn {
    fn clone(&self) -> (r: Self)
        ensures
            r.0@ == self.0@,
    {
        AdjRibIn(self.0.clone())
    }
}

impl AdjRibIn {
    /// A table without routes.
    pub fn new() -> (r: Self)
        ensures
            r.0@ == Map::<RibEntryView, RibEntryStatus>::empty(),
    {
        AdjRibIn(Rib::new())
    }

    /// Takes over a route to each network that `update` announces, with the
    /// attributes of `update`. Routes that the table held keep their marks;
    /// the others come in marked new.
    pub fn install_from_update(&mut self, update: UpdateMessage, config: &Config)
        ensures
            final(self).0@ == spec_merge(
                old(self).0@,
                spec_routes_to(
                    update@.network_layer_reachability_information,
                    update@.path_attributes,
                ),
            ),
    {
        self.0.install_networks(
            &update.network_layer_reachability_information,
            &update.path_attributes,
        );
    }

    /// Puts the route into the table, as `Rib::insert` does.
    pub fn insert(&mut self, entry: RibEntry)
        ensures
            final(self).0@ == spec_insert(old(self).0@, entry@),
    {
        self.0.insert(entry);
    }

    /// Whether a route of the table is marked new.
    pub fn does_contain_new_route(&self) -> (r: bool)
        ensures
            r == spec_has_new(self.0@),
    {
        self.0.does_contain_new_route()
    }

    /// Marks every route as unchanged.
    pub fn update_to_all_unchanged(&mut self)
        ensures
            final(self).0@ == spec_all_unchanged(old(self).0@),
            !spec_has_new(final(self).0@),
    {
        self.0.update_to_all_unchanged();
    }
}

/// Marking every route as unchanged leaves no route marked new.
pub proof fn lemma_all_unchanged_has_no_new(table: Map<RibEntryView, RibEntryStatus>)
    ensures
        !spec_has_new(spec_all_unchanged(table)),
        spec_all_unchanged(table).dom() == table.dom(),
{
    assert(spec_all_unchanged(table).dom() =~= table.dom());
}

/// Inserting a route a second time changes nothing: neither the routes of
/// the table nor any mark.
pub proof fn lemma_insert_twice(table: Map<RibEntryView, RibEntryStatus>, entry: RibEntryView)
    ensures
        spec_insert(spec_insert(table, entry), entry) == spec_insert(table, entry),
        spec_insert(table, entry).contains_key(entry),
        table.contains_key(entry) ==> spec_insert(table, entry)[entry] == table[entry],
        !table.contains_key(entry) ==> spec_insert(table, entry)[entry] == RibEntryStatus::New,
{
}

/// What handing on does to the first AS path and the first next hop of a
/// list of attributes: the first AS path, where there is one, has the
/// speaker's AS number added, and the first next hop, where there is one, is
/// the speaker's address.
pub proof fn lemma_rewrite_first(
    attributes: Seq<PathAttributeView>,
    local_ip: Ipv4Addr,
    local_as: AutonomousSystemNumber,
)
    ensures
        spec_rewrite_attributes(attributes, local_ip, local_as).len() == attributes.len(),
        spec_first_as_path(spec_rewrite_attributes(attributes, local_ip, local_as))
            == match spec_first_as_path(attributes) {
            Some(path) => Some(path.spec_push(local_as)),
            None => None,
        },
        spec_first_next_hop(spec_rewrite_attributes(attributes, local_ip, local_as))
            == match spec_first_next_hop(attributes) {
            Some(_) => Some(local_ip),
            None => None,
        },
    decreases attributes.len(),
{
    let rewritten = spec_rewrite_attributes(attributes, local_ip, local_as);
    if attributes.len() > 0 {
        let rest = attributes.drop_first();
        lemma_rewrite_first(rest, local_ip, local_as);
        assert(rewritten.drop_first() =~= spec_rewrite_attributes(rest, local_ip, local_as));
        assert(rewritten[0] == spec_change_next_hop(
            spec_append_as_path(attributes, local_as),
            local_ip,
        )[0]);
    }
}

/// A route that is handed on carries the speaker's address as its next hop,
/// and the speaker's AS number once more in its AS path than before: in a
/// sequence always, in a set where it was not yet a member.
pub proof fn lemma_handed_on_route(
    route: RibEntryView,
    path: AsPathView,
    local_ip: Ipv4Addr,
    local_as: AutonomousSystemNumber,
)
    requires
        spec_first_as_path(route.path_attributes) == Some(path),
        path is AsSequence || !route.spec_contains_as(local_as),
    ensures
        spec_first_as_path(
            spec_rewrite_attributes(route.path_attributes, local_ip, local_as),
        ) matches Some(sent) && sent.spec_occurrences(local_as) == path.spec_occurrences(local_as)
            + 1 && sent.spec_contains(local_as),
        spec_first_next_hop(route.path_attributes).is_some() ==> spec_first_next_hop(
            spec_rewrite_attributes(route.path_attributes, local_ip, local_as),
        ) == Some(local_ip),
{
    lemma_rewrite_first(route.path_attributes, local_ip, local_as);
    crate::path_attribute::lemma_push_occurrences(path, local_as);
}

/// Update-Send. A route with an AS path that has gone from the speaker's own
/// table, which holds no route through the speaker's own AS, into the table
/// for a peer is announced by one of the messages that are made of that
/// table; the AS path of that message holds the speaker's AS number once,
/// which is once more than the route's did, and its next hop is the speaker's
/// address where the route had a next hop.
pub proof fn lemma_update_send(
    own: Map<RibEntryView, RibEntryStatus>,
    chosen: Map<RibEntryView, RibEntryStatus>,
    groups: Seq<RouteGroup>,
    messages: Seq<UpdateMessageView>,
    local_ip: Ipv4Addr,
    local_as: AutonomousSystemNumber,
    route: RibEntryView,
    path: AsPathView,
)
    requires
        spec_loop_free(own, local_as),
        own.contains_key(route),
        chosen.contains_key(route),
        spec_first_as_path(route.path_attributes) == Some(path),
        spec_is_grouping(chosen.dom(), groups),
        spec_announces(messages, groups, local_ip, local_as),
    ensures
        path.spec_occurrences(local_as) == 0,
        exists|g: int|
            0 <= g < messages.len() && (
            #[trigger] messages[g]).network_layer_reachability_information.contains(
                route.network_address,
            ) && (spec_first_as_path(messages[g].path_attributes) matches Some(sent)
                && sent.spec_occurrences(local_as) == 1) && (spec_first_next_hop(
                route.path_attributes,
            ).is_some() ==> spec_first_next_hop(messages[g].path_attributes) == Some(local_ip)),
{
    assert(!route.spec_contains_as(local_as));
    match path {
        AsPathView::AsSequence(members) => {
            members.to_multiset_ensures();
        },
        AsPathView::AsSet(_) => {},
    }
    lemma_handed_on_route(route, path, local_ip, local_as);
    lemma_route_is_announced(chosen.dom(), groups, messages, local_ip, local_as, route);
}

/// Every route of a table is announced by one of the messages that are made
/// of it: a message that lists the network of the route and carries the
/// attributes of the route as the speaker hands them on.
pub proof fn lemma_route_is_announced(
    routes: Set<RibEntryView>,
    groups: Seq<RouteGroup>,
    messages: Seq<UpdateMessageView>,
    local_ip: Ipv4Addr,
    local_as: AutonomousSystemNumber,
    route: RibEntryView,
)
    requires
        spec_is_grouping(routes, groups),
        spec_announces(messages, groups, local_ip, local_as),
        routes.contains(route),
    ensures
        exists|g: int|
            0 <= g < messages.len() && (
            #[trigger] messages[g]).network_layer_reachability_information.contains(
                route.network_address,
            ) && messages[g].path_attributes == spec_rewrite_attributes(
                route.path_attributes,
                local_ip,
                local_as,
            ) && messages[g].withdrawn_routes.len() == 0,
{
    let g = choose|g: int|
        0 <= g < groups.len() && (#[trigger] groups[g]).path_attributes == route.path_attributes
            && groups[g].networks.contains(route.network_address);
    assert(messages[g] == UpdateMessageView::spec_new(
        spec_rewrite_attributes(groups[g].path_attributes, local_ip, local_as),
        groups[g].networks,
        Seq::empty(),
    ));
}

/// Merging routes into a table keeps it free of routes through `a` where
/// the table was free of them and none of the routes that come in goes
/// through `a`.
pub proof fn lemma_merge_loop_free(
    table: Map<RibEntryView, RibEntryStatus>,
    source: Map<RibEntryView, RibEntryStatus>,
    a: AutonomousSystemNumber,
)
    requires
        spec_loop_free(table, a),
    ensures
        spec_loop_free(spec_merge(table, spec_loop_free_routes(source, a)), a),
{
    let merged = spec_merge(table, spec_loop_free_routes(source, a));
    assert forall|e: RibEntryView| #[trigger] merged.contains_key(e) implies !e.spec_contains_as(
        a,
    ) by {
        if table.contains_key(e) {
        } else {
            assert(spec_loop_free_routes(source, a).contains(e));
        }
    }
}

/// Routes whose AS path contains the speaker's own AS number do not get into
/// its table: where every route that a peer has announced goes through `a`,
/// among them the routes of an Update whose AS path contains `a`, taking
/// over from the peer's table leaves the speaker's table as it is.
pub proof fn lemma_looped_update_changes_nothing(
    table: Map<RibEntryView, RibEntryStatus>,
    announced_before: Map<RibEntryView, RibEntryStatus>,
    networks: Seq<Ipv4Network>,
    path_attributes: Seq<PathAttributeView>,
    a: AutonomousSystemNumber,
)
    requires
        spec_first_as_path(path_attributes) matches Some(path) && path.spec_contains(a),
        forall|e: RibEntryView| #[trigger]
            announced_before.contains_key(e) ==> e.spec_contains_as(a),
    ensures
        spec_merge(
            table,
            spec_loop_free_routes(
                spec_merge(announced_before, spec_routes_to(networks, path_attributes)),
                a,
            ),
        ) == table,
{
    let announced = spec_merge(announced_before, spec_routes_to(networks, path_attributes));
    let taken = spec_loop_free_routes(announced, a);
    assert forall|e: RibEntryView| !taken.contains(e) by {
        if announced.contains_key(e) && !announced_before.contains_key(e) {
            assert(spec_routes_to(networks, path_attributes).contains(e));
            assert(e.path_attributes == path_attributes);
        }
    }
    assert(spec_merge(table, taken) =~= table);
}

} // verus!
