use crate::bgp_type::AutonomousSystemNumber;
use crate::error::ConvertBytesToBgpMessageError;
use crate::ipv4::Ipv4Addr;
use crate::wire::push_all;
use crate::wire::push_u16_be;
use crate::wire::spec_u16_be;
use crate::wire::spec_u16_from_be;
use crate::wire::u16_from_be;
use vstd::prelude::*;
use vstd::slice::slice_subrange;
use vstd::std_specs::convert::TryFromSpecImpl;

verus! {

/// Where a route first came from.
#[derive(Debug, PartialEq, Eq, Hash, Clone, Copy, Structural)]
pub enum Origin {
    Igp,
    Egp,
    Incomplete,
}

impl Origin {
    /// The octet that stands for the origin on the wire.
    pub open spec fn spec_code(self) -> u8 {
        match self {
            Origin::Igp => 0,
            Origin::Egp => 1,
            Origin::Incomplete => 2,
        }
    }

    /// The origin that the octet stands for; only 0, 1 and 2 stand for one.
    pub open spec fn spec_from_code(code: u8) -> Result<Origin, ConvertBytesToBgpMessageError> {
        if code == 0 {
            Ok(Origin::Igp)
        } else if code == 1 {
            Ok(Origin::Egp)
        } else if code == 2 {
            Ok(Origin::Incomplete)
        } else {
            Err(ConvertBytesToBgpMessageError::InvalidOrigin(code))
        }
    }

    /// The octet that stands for the origin on the wire.
    pub fn code(&self) -> (r: u8)
        ensures
            r == self.spec_code(),
    {
        match self {
            Origin::Igp => 0,
            Origin::Egp => 1,
            Origin::Incomplete => 2,
        }
    }

    /// The origin that the octet stands for.
    pub fn from_code(code: u8) -> (r: Result<Origin, ConvertBytesToBgpMessageError>)
        ensures
            r == Origin::spec_from_code(code),
    {
        if code == 0 {
            Ok(Origin::Igp)
        } else if code == 1 {
            Ok(Origin::Egp)
        } else if code == 2 {
            Ok(Origin::Incomplete)
        } else {
            Err(ConvertBytesToBgpMessageError::InvalidOrigin(code))
        }
    }
}

impl TryFrom<u8> for Origin {
    type Error = ConvertBytesToBgpMessageError;

    fn try_from(value: u8) -> (r: Result<Self, Self::Error>) {
        Origin::from_code(value)
    }
}

impl TryFromSpecImpl<u8> for Origin {
    open spec fn obeys_try_from_spec() -> bool {
        true
    }

    open spec fn try_from_spec(value: u8) -> Result<Self, Self::Error> {
        Origin::spec_from_code(value)
    }
}

/// The autonomous systems that a route has passed, in order of passage or as
/// a set. A set is held in ascending order, each member once.
#[derive(Debug, PartialEq, Eq, Hash)]
pub enum AsPath {
    AsSequence(Vec<AutonomousSystemNumber>),
    AsSet(Vec<AutonomousSystemNumber>),
}

/// What an `AsPath` holds.
pub enum AsPathView {
    AsSequence(Seq<AutonomousSystemNumber>),
    AsSet(Seq<AutonomousSystemNumber>),
}

/// Each member is below the next.
pub open spec fn spec_strictly_increasing(members: Seq<AutonomousSystemNumber>) -> bool {
    forall|i: int, j: int| 0 <= i < j < members.len() ==> members[i].0 < members[j].0
}

/// The index of the first member that is not below `a`, or the length where
/// all are below.
pub open spec fn spec_lower_bound(
    members: Seq<AutonomousSystemNumber>,
    a: AutonomousSystemNumber,
) -> int
    decreases members.len(),
{
    if members.len() == 0 || members[0].0 >= a.0 {
        0
    } else {
        1 + spec_lower_bound(members.drop_first(), a)
    }
}

/// `members` with `a` put before the first member that is not below it,
/// unless that member is `a` itself.
pub open spec fn spec_set_insert(
    members: Seq<AutonomousSystemNumber>,
    a: AutonomousSystemNumber,
) -> Seq<AutonomousSystemNumber> {
    let k = spec_lower_bound(members, a);
    if k < members.len() && members[k] == a {
        members
    } else {
        members.insert(k, a)
    }
}

/// The set that comes of inserting the items of `listed` one by one, from the
/// first on, into the empty set.
pub open spec fn spec_set_from(listed: Seq<AutonomousSystemNumber>) -> Seq<AutonomousSystemNumber>
    decreases listed.len(),
{
    if listed.len() == 0 {
        Seq::empty()
    } else {
        spec_set_insert(spec_set_from(listed.drop_last()), listed.last())
    }
}

/// The wire form of a list of AS numbers: two octets each, big-endian.
pub open spec fn spec_encode_ases(members: Seq<AutonomousSystemNumber>) -> Seq<u8> {
    Seq::new(
        2 * members.len(),
        |i: int|
            if i % 2 == 0 {
                (members[i / 2].0 / 256) as u8
            } else {
                (members[i / 2].0 % 256) as u8
            },
    )
}

/// The AS numbers that `value` lists from its third octet on, two octets each.
pub open spec fn spec_decode_ases(value: Seq<u8>) -> Seq<AutonomousSystemNumber> {
    if value.len() <= 2 {
        Seq::empty()
    } else {
        Seq::new(
            ((value.len() - 2) / 2) as nat,
            |j: int| AutonomousSystemNumber(spec_u16_from_be(value[2 + 2 * j], value[3 + 2 * j])),
        )
    }
}

impl AsPathView {
    /// The AS numbers of the path, in the order in which they are held.
    pub open spec fn spec_members(self) -> Seq<AutonomousSystemNumber> {
        match self {
            AsPathView::AsSequence(members) => members,
            AsPathView::AsSet(members) => members,
        }
    }

    /// The octet that tells a set (1) from a sequence (2) on the wire.
    pub open spec fn spec_segment_type(self) -> u8 {
        match self {
            AsPathView::AsSequence(_) => 2,
            AsPathView::AsSet(_) => 1,
        }
    }

    /// A set is held in ascending order, each member once.
    pub open spec fn wf(self) -> bool {
        match self {
            AsPathView::AsSequence(_) => true,
            AsPathView::AsSet(members) => spec_strictly_increasing(members),
        }
    }

    /// Whether `a` is among the AS numbers of the path.
    pub open spec fn spec_contains(self, a: AutonomousSystemNumber) -> bool {
        self.spec_members().contains(a)
    }

    /// How often `a` occurs in the path; in a set a member counts once.
    pub open spec fn spec_occurrences(self, a: AutonomousSystemNumber) -> nat {
        match self {
            AsPathView::AsSequence(members) => members.to_multiset().count(a),
            AsPathView::AsSet(members) => if members.contains(a) {
                1
            } else {
                0
            },
        }
    }

    /// The path with `a` added: at the end of a sequence, in its place in a
    /// set.
    pub open spec fn spec_push(self, a: AutonomousSystemNumber) -> AsPathView {
        match self {
            AsPathView::AsSequence(members) => AsPathView::AsSequence(members.push(a)),
            AsPathView::AsSet(members) => AsPathView::AsSet(spec_set_insert(members, a)),
        }
    }

    /// The wire form of the attribute's value: the segment type, the number
    /// of AS numbers as one octet, and the AS numbers.
    pub open spec fn spec_encode(self) -> Seq<u8> {
        seq![self.spec_segment_type(), (self.spec_members().len() % 256) as u8] + spec_encode_ases(
            self.spec_members(),
        )
    }

    /// What the value of an AS path attribute decodes to. The octet that
    /// counts the AS numbers is not looked at: the length of the value
    /// decides how many there are.
    pub open spec fn spec_decode(value: Seq<u8>) -> Result<
        AsPathView,
        ConvertBytesToBgpMessageError,
    > {
        if value.len() == 0 {
            Err(ConvertBytesToBgpMessageError::Truncated)
        } else if value[0] != 1 && value[0] != 2 {
            Err(ConvertBytesToBgpMessageError::InvalidAsPathSegmentType(value[0]))
        } else if value.len() > 2 && (value.len() - 2) % 2 != 0 {
            Err(ConvertBytesToBgpMessageError::Truncated)
        } else if value[0] == 2 {
            Ok(AsPathView::AsSequence(spec_decode_ases(value)))
        } else {
            Ok(AsPathView::AsSet(spec_set_from(spec_decode_ases(value))))
        }
    }
}

impl View for AsPath {
    type V = AsPathView;

    open spec fn view(&self) -> AsPathView {
        match self {
            AsPath::AsSequence(members) => AsPathView::AsSequence(members@),
            AsPath::AsSet(members) => AsPathView::AsSet(members@),
        }
    }
}

/// The first member that is not below `a` is where `spec_lower_bound` says.
pub proof fn lemma_lower_bound(members: Seq<AutonomousSystemNumber>, a: AutonomousSystemNumber)
    ensures
        0 <= spec_lower_bound(members, a) <= members.len(),
        forall|j: int| 0 <= j < spec_lower_bound(members, a) ==> members[j].0 < a.0,
        spec_lower_bound(members, a) < members.len() ==> members[spec_lower_bound(members, a)].0
            >= a.0,
    decreases members.len(),
{
    if members.len() == 0 || members[0].0 >= a.0 {
    } else {
        let rest = members.drop_first();
        lemma_lower_bound(rest, a);
        let k = spec_lower_bound(rest, a);
        assert forall|j: int| 0 <= j < 1 + k implies members[j].0 < a.0 by {
            if j > 0 {
                assert(rest[j - 1] == members[j]);
            }
        }
        if 1 + k < members.len() {
            assert(rest[k] == members[1 + k]);
        }
    }
}

/// An index with only smaller members before it, and none smaller at it, is
/// the lower bound.
pub proof fn lemma_lower_bound_is(
    members: Seq<AutonomousSystemNumber>,
    a: AutonomousSystemNumber,
    k: int,
)
    requires
        0 <= k <= members.len(),
        forall|j: int| 0 <= j < k ==> members[j].0 < a.0,
        k < members.len() ==> members[k].0 >= a.0,
    ensures
        spec_lower_bound(members, a) == k,
{
    lemma_lower_bound(members, a);
    let b = spec_lower_bound(members, a);
    if b < k {
        assert(members[b].0 < a.0);
    } else if k < b {
        assert(members[k].0 < a.0);
    }
}

/// Inserting into a set keeps it in ascending order, adds `a` and nothing
/// else, and leaves a set that holds `a` already as it is.
pub proof fn lemma_set_insert(members: Seq<AutonomousSystemNumber>, a: AutonomousSystemNumber)
    requires
        spec_strictly_increasing(members),
    ensures
        spec_strictly_increasing(spec_set_insert(members, a)),
        forall|x: AutonomousSystemNumber|
            spec_set_insert(members, a).contains(x) <==> (members.contains(x) || x == a),
        members.contains(a) ==> spec_set_insert(members, a) == members,
{
    lemma_lower_bound(members, a);
    let k = spec_lower_bound(members, a);
    let after = spec_set_insert(members, a);
    if k < members.len() && members[k] == a {
        assert forall|x: AutonomousSystemNumber|
            after.contains(x) <==> (members.contains(x) || x == a) by {
            if x == a {
                assert(members[k] == x);
            }
        }
    } else {
        assert forall|i: int, j: int| 0 <= i < j < after.len() implies after[i].0 < after[j].0 by {
            if i < k && j > k {
                assert(after[j] == members[j - 1]);
                if j - 1 > k {
                    assert(members[k].0 < members[j - 1].0);
                }
            } else if i == k {
                assert(after[j] == members[j - 1]);
                if j - 1 > k {
                    assert(members[k].0 < members[j - 1].0);
                }
            }
        }
        assert forall|x: AutonomousSystemNumber|
            after.contains(x) <==> (members.contains(x) || x == a) by {
            if after.contains(x) {
                let i = choose|i: int| 0 <= i < after.len() && after[i] == x;
                if i < k {
                    assert(members[i] == x);
                } else if i > k {
                    assert(members[i - 1] == x);
                }
            }
            if members.contains(x) {
                let i = choose|i: int| 0 <= i < members.len() && members[i] == x;
                if i < k {
                    assert(after[i] == x);
                } else {
                    assert(after[i + 1] == x);
                }
            }
            if x == a {
                assert(after[k] == x);
            }
        }
        if members.contains(a) {
            let i = choose|i: int| 0 <= i < members.len() && members[i] == a;
            if i < k {
                assert(members[i].0 < a.0);
            } else if i > k {
                assert(members[k].0 < members[i].0);
            }
        }
    }
}

/// Building a set from a list that is already in ascending order, each item
/// once, gives that list.
pub proof fn lemma_set_from_increasing(listed: Seq<AutonomousSystemNumber>)
    requires
        spec_strictly_increasing(listed),
    ensures
        spec_set_from(listed) == listed,
    decreases listed.len(),
{
    if listed.len() == 0 {
        assert(listed =~= Seq::<AutonomousSystemNumber>::empty());
    } else {
        let front = listed.drop_last();
        lemma_set_from_increasing(front);
        lemma_lower_bound_is(front, listed.last(), front.len() as int);
        assert(front.insert(front.len() as int, listed.last()) =~= listed);
    }
}

/// A set built from any list is in ascending order, each member once.
pub proof fn lemma_set_from_wf(listed: Seq<AutonomousSystemNumber>)
    ensures
        spec_strictly_increasing(spec_set_from(listed)),
    decreases listed.len(),
{
    if listed.len() > 0 {
        lemma_set_from_wf(listed.drop_last());
        lemma_set_insert(spec_set_from(listed.drop_last()), listed.last());
    }
}

/// Adding an AS number to a path makes the path contain the number, and
/// makes it occur once more than before: in a sequence always, in a set
/// where it was not yet a member. No other AS number comes or goes. A
/// well-formed set stays well formed, and stays as it is where the number
/// was a member already.
pub proof fn lemma_push_occurrences(path: AsPathView, a: AutonomousSystemNumber)
    ensures
        path.spec_push(a).spec_contains(a),
        (path is AsSequence || !path.spec_contains(a)) ==> path.spec_push(a).spec_occurrences(a)
            == path.spec_occurrences(a) + 1,
        path.wf() ==> path.spec_push(a).wf(),
        (path is AsSet && path.wf() && path.spec_contains(a)) ==> path.spec_push(a) == path,
        forall|x: AutonomousSystemNumber|
            x != a ==> (path.spec_push(a).spec_contains(x) <==> path.spec_contains(x)),
{
    match path {
        AsPathView::AsSequence(members) => {
            members.to_multiset_ensures();
            assert(members.push(a).to_multiset() =~= members.to_multiset().insert(a));
            assert(members.push(a)[members.len() as int] == a);
            assert forall|x: AutonomousSystemNumber| x != a implies (members.push(a).contains(x)
                <==> members.contains(x)) by {
                if members.push(a).contains(x) {
                    let i = choose|i: int| 0 <= i < members.push(a).len() && members.push(a)[i] == x;
                    assert(members[i] == x);
                }
                if members.contains(x) {
                    let i = choose|i: int| 0 <= i < members.len() && members[i] == x;
                    assert(members.push(a)[i] == x);
                }
            }
        },
        AsPathView::AsSet(members) => {
            lemma_lower_bound(members, a);
            let k = spec_lower_bound(members, a);
            let after = spec_set_insert(members, a);
            if k < members.len() && members[k] == a {
                assert(after == members);
            } else {
                assert(after[k] == a);
                assert forall|x: AutonomousSystemNumber| x != a implies (after.contains(x)
                    <==> members.contains(x)) by {
                    if after.contains(x) {
                        let i = choose|i: int| 0 <= i < after.len() && after[i] == x;
                        if i < k {
                            assert(members[i] == x);
                        } else {
                            assert(members[i - 1] == x);
                        }
                    }
                    if members.contains(x) {
                        let i = choose|i: int| 0 <= i < members.len() && members[i] == x;
                        if i < k {
                            assert(after[i] == x);
                        } else {
                            assert(after[i + 1] == x);
                        }
                    }
                }
            }
            assert(after.contains(a));
            if path.wf() {
                lemma_set_insert(members, a);
            }
        },
    }
}

impl AsPath {
    /// Whether `a` is among the AS numbers of the path.
    pub fn does_contain(&self, a: AutonomousSystemNumber) -> (r: bool)
        ensures
            r == self@.spec_contains(a),
    {
        let members = match self {
            AsPath::AsSequence(members) => members,
            AsPath::AsSet(members) => members,
        };
        let mut i: usize = 0;
        while i < members.len()
            invariant
                i <= members.len(),
                self@.spec_members() == members@,
                forall|j: int| 0 <= j < i ==> members@[j] != a,
            decreases members.len() - i,
        {
            if members[i].0 == a.0 {
                assert(members@[i as int] == a);
                return true;
            }
            i = i + 1;
        }
        false
    }

    /// Adds `a` to the path: at the end of a sequence, in its place in a set
    /// unless it is a member already.
    pub fn push(&mut self, a: AutonomousSystemNumber)
        ensures
            final(self)@ == old(self)@.spec_push(a),
    {
        match self {
            AsPath::AsSequence(members) => {
                members.push(a);
            },
            AsPath::AsSet(members) => {
                set_insert(members, a);
            },
        }
    }

    /// Adds `a` to the path, as `push` does.
    pub fn add(&mut self, a: AutonomousSystemNumber)
        ensures
            final(self)@ == old(self)@.spec_push(a),
    {
        self.push(a);
    }

    /// Whether the two paths are of the same kind and hold the same AS
    /// numbers in the same order.
    pub fn equals(&self, other: &AsPath) -> (r: bool)
        ensures
            r == (self@ == other@),
    {
        match (self, other) {
            (AsPath::AsSequence(a), AsPath::AsSequence(b)) => same_ases(a, b),
            (AsPath::AsSet(a), AsPath::AsSet(b)) => same_ases(a, b),
            _ => false,
        }
    }

    /// Appends the wire form of the attribute's value to `out`.
    pub fn encode_into(&self, out: &mut Vec<u8>)
        ensures
            final(out)@ == old(out)@ + self@.spec_encode(),
    {
        let (segment_type, members) = match self {
            AsPath::AsSequence(members) => (2u8, members),
            AsPath::AsSet(members) => (1u8, members),
        };
        out.push(segment_type);
        out.push((members.len() % 256) as u8);
        let ghost start = out@;
        let mut i: usize = 0;
        assert(start + spec_encode_ases(members@.take(0)) =~= start);
        while i < members.len()
            invariant
                i <= members.len(),
                out@ == start + spec_encode_ases(members@.take(i as int)),
            decreases members.len() - i,
        {
            push_u16_be(out, members[i].0);
            i = i + 1;
            assert(out@ =~= start + spec_encode_ases(members@.take(i as int)));
        }
        assert(members@.take(members@.len() as int) =~= members@);
        assert(out@ =~= old(out)@ + self@.spec_encode());
    }

    /// The path that the value of an AS path attribute holds.
    pub fn decode(value: &[u8]) -> (r: Result<AsPath, ConvertBytesToBgpMessageError>)
        ensures
            match r {
                Ok(path) => AsPathView::spec_decode(value@) == Ok::<
                    AsPathView,
                    ConvertBytesToBgpMessageError,
                >(path@) && path@.wf(),
                Err(e) => AsPathView::spec_decode(value@) == Err::<
                    AsPathView,
                    ConvertBytesToBgpMessageError,
                >(e),
            },
    {
        if value.len() == 0 {
            return Err(ConvertBytesToBgpMessageError::Truncated);
        }
        let segment_type = value[0];
        if segment_type != 1 && segment_type != 2 {
            return Err(ConvertBytesToBgpMessageError::InvalidAsPathSegmentType(segment_type));
        }
        if value.len() > 2 && (value.len() - 2) % 2 != 0 {
            return Err(ConvertBytesToBgpMessageError::Truncated);
        }
        let count: usize = if value.len() <= 2 {
            0
        } else {
            (value.len() - 2) / 2
        };
        let ghost listed = spec_decode_ases(value@);
        let mut members: Vec<AutonomousSystemNumber> = Vec::new();
        let mut j: usize = 0;
        while j < count
            invariant
                j <= count,
                count == listed.len(),
                listed == spec_decode_ases(value@),
                count > 0 ==> 2 + 2 * count <= value.len(),
                segment_type == 1 || segment_type == 2,
                segment_type == 2 ==> members@ == listed.take(j as int),
                segment_type == 1 ==> members@ == spec_set_from(listed.take(j as int)),
            decreases count - j,
        {
            let a = AutonomousSystemNumber(u16_from_be(value[2 + 2 * j], value[3 + 2 * j]));
            proof {
                assert(a == listed[j as int]);
                let next = listed.take(j + 1);
                assert(next.drop_last() =~= listed.take(j as int));
                assert(next.last() == a);
            }
            if segment_type == 2 {
                members.push(a);
                assert(members@ =~= listed.take(j + 1));
            } else {
                set_insert(&mut members, a);
            }
            j = j + 1;
        }
        proof {
            assert(listed.take(count as int) =~= listed);
            lemma_set_from_wf(listed);
        }
        if segment_type == 2 {
            Ok(AsPath::AsSequence(members))
        } else {
            Ok(AsPath::AsSet(members))
        }
    }
}

impl Clone for AsPath {
    fn clone(&self) -> (r: Self)
        ensures
            r@ == self@,
    {
        match self {
            AsPath::AsSequence(members) => AsPath::AsSequence(copy_ases(members)),
            AsPath::AsSet(members) => AsPath::AsSet(copy_ases(members)),
        }
    }
}

fn set_insert(members: &mut Vec<AutonomousSystemNumber>, a: AutonomousSystemNumber)
    ensures
        final(members)@ == spec_set_insert(old(members)@, a),
{
    let mut k: usize = 0;
    while k < members.len() && members[k].0 < a.0
        invariant
            k <= members.len(),
            members@ == old(members)@,
            forall|j: int| 0 <= j < k ==> members@[j].0 < a.0,
        decreases members.len() - k,
    {
        k = k + 1;
    }
    proof {
        lemma_lower_bound_is(members@, a, k as int);
    }
    if k < members.len() && members[k].0 == a.0 {
    } else {
        members.insert(k, a);
    }
}

fn same_ases(a: &Vec<AutonomousSystemNumber>, b: &Vec<AutonomousSystemNumber>) -> (r: bool)
    ensures
        r == (a@ == b@),
{
    if a.len() != b.len() {
        return false;
    }
    let mut i: usize = 0;
    while i < a.len()
        invariant
            i <= a.len(),
            a.len() == b.len(),
            forall|j: int| 0 <= j < i ==> a@[j] == b@[j],
        decreases a.len() - i,
    {
        if a[i].0 != b[i].0 {
            return false;
        }
        i = i + 1;
    }
    assert(a@ =~= b@);
    true
}

fn copy_ases(members: &Vec<AutonomousSystemNumber>) -> (r: Vec<AutonomousSystemNumber>)
    ensures
        r@ == members@,
{
    let mut r: Vec<AutonomousSystemNumber> = Vec::new();
    let mut i: usize = 0;
    while i < members.len()
        invariant
            i <= members.len(),
            r@ == members@.take(i as int),
        decreases members.len() - i,
    {
        r.push(members[i]);
        i = i + 1;
        assert(r@ =~= members@.take(i as int));
    }
    assert(members@.take(members@.len() as int) =~= members@);
    r
}

fn same_bytes(a: &Vec<u8>, b: &Vec<u8>) -> (r: bool)
    ensures
        r == (a@ == b@),
{
    if a.len() != b.len() {
        return false;
    }
    let mut i: usize = 0;
    while i < a.len()
        invariant
            i <= a.len(),
            a.len() == b.len(),
            forall|j: int| 0 <= j < i ==> a@[j] == b@[j],
        decreases a.len() - i,
    {
        if a[i] != b[i] {
            return false;
        }
        i = i + 1;
    }
    assert(a@ =~= b@);
    true
}

/// One of the attributes that an Update message attaches to its routes.
#[derive(Debug, PartialEq, Eq, Hash)]
pub enum PathAttribute {
    Origin(Origin),
    AsPath(AsPath),
    NextHop(Ipv4Addr),
    /// An attribute of a kind that is not interpreted: its whole wire form,
    /// header included.
    Unknown(Vec<u8>),
}

/// What a `PathAttribute` holds.
pub enum PathAttributeView {
    Origin(Origin),
    AsPath(AsPathView),
    NextHop(Ipv4Addr),
    Unknown(Seq<u8>),
}

impl View for PathAttribute {
    type V = PathAttributeView;

    open spec fn view(&self) -> PathAttributeView {
        match self {
            PathAttribute::Origin(origin) => PathAttributeView::Origin(*origin),
            PathAttribute::AsPath(path) => PathAttributeView::AsPath(path@),
            PathAttribute::NextHop(next_hop) => PathAttributeView::NextHop(*next_hop),
            PathAttribute::Unknown(raw) => PathAttributeView::Unknown(raw@),
        }
    }
}

/// The flags of a well-known attribute whose length takes one octet.
pub const FLAGS_WELL_KNOWN: u8 = 0x40;

/// The flags of a well-known attribute whose length takes two octets.
pub const FLAGS_WELL_KNOWN_EXTENDED: u8 = 0x50;

/// The flag that says that the length takes two octets.
pub const FLAG_EXTENDED_LENGTH: u8 = 0x10;

impl PathAttributeView {
    /// An AS path in the attribute is well formed.
    pub open spec fn wf(self) -> bool {
        match self {
            PathAttributeView::AsPath(path) => path.wf(),
            _ => true,
        }
    }

    /// The wire form: flags, type code, length in one octet (in two, with the
    /// extended-length flag set, where the value is longer than 255 octets)
    /// and the value. An attribute that is not interpreted is its own wire
    /// form.
    pub open spec fn spec_encode(self) -> Seq<u8> {
        match self {
            PathAttributeView::Origin(origin) => seq![FLAGS_WELL_KNOWN, 1, 1, origin.spec_code()],
            PathAttributeView::AsPath(path) => {
                let value = path.spec_encode();
                if value.len() < 256 {
                    seq![FLAGS_WELL_KNOWN, 2, value.len() as u8] + value
                } else {
                    seq![FLAGS_WELL_KNOWN_EXTENDED, 2] + spec_u16_be((value.len() % 65536) as u16)
                        + value
                }
            },
            PathAttributeView::NextHop(next_hop) => seq![FLAGS_WELL_KNOWN, 3, 4]
                + next_hop.spec_octets(),
            PathAttributeView::Unknown(raw) => raw,
        }
    }

    /// Whether the length field of the wire form can say how long the value
    /// is: an AS path of at most 32766 AS numbers.
    pub open spec fn spec_fits(self) -> bool {
        match self {
            PathAttributeView::AsPath(path) => path.spec_encode().len() <= 65535,
            _ => true,
        }
    }

    /// The first attribute that `bytes` hold, and the number of octets that
    /// it takes.
    pub open spec fn spec_decode_first(bytes: Seq<u8>) -> Result<
        (PathAttributeView, int),
        ConvertBytesToBgpMessageError,
    > {
        if bytes.len() < 3 {
            Err(ConvertBytesToBgpMessageError::Truncated)
        } else {
            let extended = bytes[0] & FLAG_EXTENDED_LENGTH != 0;
            let header: int = if extended {
                4
            } else {
                3
            };
            if bytes.len() < header {
                Err(ConvertBytesToBgpMessageError::Truncated)
            } else {
                let length: int = if extended {
                    spec_u16_from_be(bytes[2], bytes[3]) as int
                } else {
                    bytes[2] as int
                };
                if bytes.len() - header < length {
                    Err(ConvertBytesToBgpMessageError::Truncated)
                } else {
                    let value = bytes.subrange(header, header + length);
                    let used = header + length;
                    if bytes[1] == 1 {
                        if length < 1 {
                            Err(ConvertBytesToBgpMessageError::Truncated)
                        } else {
                            match Origin::spec_from_code(value[0]) {
                                Ok(origin) => Ok((PathAttributeView::Origin(origin), used)),
                                Err(e) => Err(e),
                            }
                        }
                    } else if bytes[1] == 2 {
                        match AsPathView::spec_decode(value) {
                            Ok(path) => Ok((PathAttributeView::AsPath(path), used)),
                            Err(e) => Err(e),
                        }
                    } else if bytes[1] == 3 {
                        if length < 4 {
                            Err(ConvertBytesToBgpMessageError::Truncated)
                        } else {
                            Ok(
                                (
                                    PathAttributeView::NextHop(
                                        Ipv4Addr(value[0], value[1], value[2], value[3]),
                                    ),
                                    used,
                                ),
                            )
                        }
                    } else {
                        Ok((PathAttributeView::Unknown(bytes.subrange(0, used)), used))
                    }
                }
            }
        }
    }
}

/// What each of the attributes holds, in order.
pub open spec fn spec_attribute_views(attributes: Seq<PathAttribute>) -> Seq<PathAttributeView> {
    Seq::new(attributes.len(), |i: int| attributes[i]@)
}

/// The wire form of a list of attributes: the wire forms of its items in order.
pub open spec fn spec_encode_attributes(attributes: Seq<PathAttributeView>) -> Seq<u8>
    decreases attributes.len(),
{
    if attributes.len() == 0 {
        Seq::empty()
    } else {
        spec_encode_attributes(attributes.drop_last()) + attributes.last().spec_encode()
    }
}

/// `decoded` with `done` put in front of what it lists, where it lists
/// anything.
pub open spec fn spec_prepend_attributes(
    done: Seq<PathAttributeView>,
    decoded: Result<Seq<PathAttributeView>, ConvertBytesToBgpMessageError>,
) -> Result<Seq<PathAttributeView>, ConvertBytesToBgpMessageError> {
    match decoded {
        Ok(tail) => Ok(done + tail),
        Err(e) => Err(e),
    }
}

/// What `bytes` decode to as a list of attributes: the first failure met from
/// the left, or every attribute in order.
pub open spec fn spec_decode_attributes(bytes: Seq<u8>) -> Result<
    Seq<PathAttributeView>,
    ConvertBytesToBgpMessageError,
>
    decreases bytes.len(),
{
    if bytes.len() == 0 {
        Ok(Seq::empty())
    } else {
        match PathAttributeView::spec_decode_first(bytes) {
            Err(e) => Err(e),
            Ok((attribute, used)) => if 3 <= used <= bytes.len() {
                spec_prepend_attributes(
                    seq![attribute],
                    spec_decode_attributes(bytes.skip(used)),
                )
            } else {
                Err(ConvertBytesToBgpMessageError::Truncated)
            },
        }
    }
}

impl PathAttribute {
    /// The number of octets of the wire form.
    pub fn bytes_len(&self) -> (r: usize)
        requires
            self@.spec_encode().len() <= usize::MAX,
        ensures
            r == self@.spec_encode().len(),
    {
        match self {
            PathAttribute::Origin(_) => 4,
            PathAttribute::AsPath(path) => {
                let members = match path {
                    AsPath::AsSequence(members) => members,
                    AsPath::AsSet(members) => members,
                };
                let value = 2 + 2 * members.len();
                if value < 256 {
                    value + 3
                } else {
                    value + 4
                }
            },
            PathAttribute::NextHop(_) => 7,
            PathAttribute::Unknown(raw) => raw.len(),
        }
    }

    /// The number of octets of the wire form, as a length field of sixteen
    /// bits holds it: what is left of the number after division by 65536.
    pub fn length_field(&self) -> (r: u16)
        ensures
            r == self@.spec_encode().len() % 65536,
    {
        match self {
            PathAttribute::Origin(_) => 4,
            PathAttribute::AsPath(path) => {
                let members = match path {
                    AsPath::AsSequence(members) => members,
                    AsPath::AsSet(members) => members,
                };
                let header: u32 = if members.len() <= 126 {
                    3
                } else {
                    4
                };
                let doubled: u32 = 2 * ((members.len() % 32768) as u32);
                ((2 + doubled + header) % 65536) as u16
            },
            PathAttribute::NextHop(_) => 7,
            PathAttribute::Unknown(raw) => (raw.len() % 65536) as u16,
        }
    }

    /// Whether the two attributes are of the same kind and hold the same.
    pub fn equals(&self, other: &PathAttribute) -> (r: bool)
        ensures
            r == (self@ == other@),
    {
        match (self, other) {
            (PathAttribute::Origin(a), PathAttribute::Origin(b)) => a.code() == b.code(),
            (PathAttribute::AsPath(a), PathAttribute::AsPath(b)) => a.equals(b),
            (PathAttribute::NextHop(a), PathAttribute::NextHop(b)) => a.0 == b.0 && a.1 == b.1
                && a.2 == b.2 && a.3 == b.3,
            (PathAttribute::Unknown(a), PathAttribute::Unknown(b)) => same_bytes(a, b),
            _ => false,
        }
    }

    /// Appends the wire form to `out`.
    pub fn encode_into(&self, out: &mut Vec<u8>)
        ensures
            final(out)@ == old(out)@ + self@.spec_encode(),
    {
        match self {
            PathAttribute::Origin(origin) => {
                out.push(FLAGS_WELL_KNOWN);
                out.push(1);
                out.push(1);
                out.push(origin.code());
            },
            PathAttribute::AsPath(path) => {
                let mut value: Vec<u8> = Vec::new();
                path.encode_into(&mut value);
                assert(value@ =~= path@.spec_encode());
                if value.len() < 256 {
                    out.push(FLAGS_WELL_KNOWN);
                    out.push(2);
                    out.push(value.len() as u8);
                } else {
                    out.push(FLAGS_WELL_KNOWN_EXTENDED);
                    out.push(2);
                    push_u16_be(out, (value.len() % 65536) as u16);
                }
                push_all(out, value.as_slice());
            },
            PathAttribute::NextHop(next_hop) => {
                out.push(FLAGS_WELL_KNOWN);
                out.push(3);
                out.push(4);
                out.push(next_hop.0);
                out.push(next_hop.1);
                out.push(next_hop.2);
                out.push(next_hop.3);
            },
            PathAttribute::Unknown(raw) => {
                push_all(out, raw.as_slice());
            },
        }
        assert(out@ =~= old(out)@ + self@.spec_encode());
    }

    /// The wire form.
    pub fn encode(&self) -> (r: Vec<u8>)
        ensures
            r@ == self@.spec_encode(),
    {
        let mut out: Vec<u8> = Vec::new();
        self.encode_into(&mut out);
        assert(out@ =~= self@.spec_encode());
        out
    }

    /// The first attribute that `bytes` hold from index `from` on, and the
    /// index behind it.
    fn decode_first(bytes: &[u8], from: usize) -> (r: Result<
        (PathAttribute, usize),
        ConvertBytesToBgpMessageError,
    >)
        requires
            from < bytes@.len(),
        ensures
            match r {
                Ok((attribute, next)) => PathAttributeView::spec_decode_first(
                    bytes@.skip(from as int),
                ) == Ok::<(PathAttributeView, int), ConvertBytesToBgpMessageError>(
                    (attribute@, next - from),
                ) && from + 3 <= next <= bytes@.len() && attribute@.wf(),
                Err(e) => PathAttributeView::spec_decode_first(bytes@.skip(from as int)) == Err::<
                    (PathAttributeView, int),
                    ConvertBytesToBgpMessageError,
                >(e),
            },
    {
        let ghost rest = bytes@.skip(from as int);
        let remaining = bytes.len() - from;
        if remaining < 3 {
            return Err(ConvertBytesToBgpMessageError::Truncated);
        }
        let flags = bytes[from];
        let code = bytes[from + 1];
        let extended = flags & FLAG_EXTENDED_LENGTH != 0;
        let header: usize = if extended {
            4
        } else {
            3
        };
        if remaining < header {
            return Err(ConvertBytesToBgpMessageError::Truncated);
        }
        let length: usize = if extended {
            u16_from_be(bytes[from + 2], bytes[from + 3]) as usize
        } else {
            bytes[from + 2] as usize
        };
        if remaining - header < length {
            return Err(ConvertBytesToBgpMessageError::Truncated);
        }
        let start = from + header;
        let end = start + length;
        let ghost value = rest.subrange(header as int, header + length);
        assert(value =~= bytes@.subrange(start as int, end as int));
        if code == 1 {
            if length < 1 {
                return Err(ConvertBytesToBgpMessageError::Truncated);
            }
            assert(value[0] == bytes@[start as int]);
            match Origin::from_code(bytes[start]) {
                Ok(origin) => Ok((PathAttribute::Origin(origin), end)),
                Err(e) => Err(e),
            }
        } else if code == 2 {
            match AsPath::decode(slice_subrange(bytes, start, end)) {
                Ok(path) => Ok((PathAttribute::AsPath(path), end)),
                Err(e) => Err(e),
            }
        } else if code == 3 {
            if length < 4 {
                return Err(ConvertBytesToBgpMessageError::Truncated);
            }
            assert(value[0] == bytes@[start as int]);
            assert(value[1] == bytes@[start + 1]);
            assert(value[2] == bytes@[start + 2]);
            assert(value[3] == bytes@[start + 3]);
            Ok(
                (
                    PathAttribute::NextHop(
                        Ipv4Addr(
                            bytes[start],
                            bytes[start + 1],
                            bytes[start + 2],
                            bytes[start + 3],
                        ),
                    ),
                    end,
                ),
            )
        } else {
            let mut raw: Vec<u8> = Vec::new();
            push_all(&mut raw, slice_subrange(bytes, from, end));
            assert(raw@ =~= rest.subrange(0, header + length));
            Ok((PathAttribute::Unknown(raw), end))
        }
    }

    /// The attributes that `bytes` list, one wire form after the other, until
    /// the bytes are used up.
    pub fn from_u8_slice(bytes: &[u8]) -> (r: Result<
        Vec<PathAttribute>,
        ConvertBytesToBgpMessageError,
    >)
        ensures
            match r {
                Ok(attributes) => spec_decode_attributes(bytes@) == Ok::<
                    Seq<PathAttributeView>,
                    ConvertBytesToBgpMessageError,
                >(spec_attribute_views(attributes@)) && forall|i: int|
                    0 <= i < attributes@.len() ==> (#[trigger] attributes@[i])@.wf(),
                Err(e) => spec_decode_attributes(bytes@) == Err::<
                    Seq<PathAttributeView>,
                    ConvertBytesToBgpMessageError,
                >(e),
            },
    {
        let mut attributes: Vec<PathAttribute> = Vec::new();
        let mut i: usize = 0;
        assert(bytes@.skip(0) =~= bytes@);
        assert(Seq::<PathAttributeView>::empty() =~= spec_attribute_views(attributes@));
        while i < bytes.len()
            invariant
                i <= bytes.len(),
                spec_decode_attributes(bytes@) == spec_prepend_attributes(
                    spec_attribute_views(attributes@),
                    spec_decode_attributes(bytes@.skip(i as int)),
                ),
                forall|j: int| 0 <= j < attributes@.len() ==> (#[trigger] attributes@[j])@.wf(),
            decreases bytes.len() - i,
        {
            let ghost rest = bytes@.skip(i as int);
            match PathAttribute::decode_first(bytes, i) {
                Err(e) => {
                    return Err(e);
                },
                Ok((attribute, next)) => {
                    proof {
                        assert(rest.skip(next - i) =~= bytes@.skip(next as int));
                        let done = spec_attribute_views(attributes@);
                        assert(spec_attribute_views(attributes@.push(attribute)) =~= done.push(
                            attribute@,
                        ));
                        match spec_decode_attributes(bytes@.skip(next as int)) {
                            Ok(tail) => {
                                assert(done.push(attribute@) + tail =~= done + (seq![attribute@]
                                    + tail));
                            },
                            Err(_) => {},
                        }
                    }
                    attributes.push(attribute);
                    i = next;
                },
            }
        }
        assert(spec_attribute_views(attributes@) + Seq::<PathAttributeView>::empty()
            =~= spec_attribute_views(attributes@));
        Ok(attributes)
    }
}

impl Clone for PathAttribute {
    fn clone(&self) -> (r: Self)
        ensures
            r@ == self@,
    {
        match self {
            PathAttribute::Origin(origin) => PathAttribute::Origin(*origin),
            PathAttribute::AsPath(path) => PathAttribute::AsPath(path.clone()),
            PathAttribute::NextHop(next_hop) => PathAttribute::NextHop(*next_hop),
            PathAttribute::Unknown(raw) => {
                let mut copy: Vec<u8> = Vec::new();
                push_all(&mut copy, raw.as_slice());
                assert(copy@ =~= raw@);
                PathAttribute::Unknown(copy)
            },
        }
    }
}

/// Appends the wire forms of `attributes`, in order, to `out`.
pub fn encode_attributes_into(attributes: &Vec<PathAttribute>, out: &mut Vec<u8>)
    ensures
        final(out)@ == old(out)@ + spec_encode_attributes(spec_attribute_views(attributes@)),
{
    let ghost views = spec_attribute_views(attributes@);
    let mut i: usize = 0;
    assert(old(out)@ + spec_encode_attributes(views.take(0)) =~= old(out)@);
    while i < attributes.len()
        invariant
            i <= attributes.len(),
            views == spec_attribute_views(attributes@),
            out@ == old(out)@ + spec_encode_attributes(views.take(i as int)),
        decreases attributes.len() - i,
    {
        attributes[i].encode_into(out);
        proof {
            let next = views.take(i + 1);
            assert(next.drop_last() =~= views.take(i as int));
            assert(next.last() == attributes@[i as int]@);
            assert(out@ =~= old(out)@ + spec_encode_attributes(next));
        }
        i = i + 1;
    }
    assert(views.take(views.len() as int) =~= views);
}

/// The number of octets that the wire forms of `attributes` take together,
/// as a length field of sixteen bits holds it: what is left of the number
/// after division by 65536.
pub fn attributes_length(attributes: &Vec<PathAttribute>) -> (r: u16)
    ensures
        r == spec_encode_attributes(spec_attribute_views(attributes@)).len() % 65536,
{
    let ghost views = spec_attribute_views(attributes@);
    let mut length: u32 = 0;
    let mut i: usize = 0;
    assert(spec_encode_attributes(views.take(0)).len() == 0);
    while i < attributes.len()
        invariant
            i <= attributes.len(),
            views == spec_attribute_views(attributes@),
            length == spec_encode_attributes(views.take(i as int)).len() % 65536,
        decreases attributes.len() - i,
    {
        proof {
            let next = views.take(i + 1);
            assert(next.drop_last() =~= views.take(i as int));
            assert(next.last() == attributes@[i as int]@);
        }
        length = (length + attributes[i].length_field() as u32) % 65536;
        i = i + 1;
    }
    assert(views.take(views.len() as int) =~= views);
    length as u16
}

/// Whether the two lists hold the same attributes in the same order.
pub fn same_attributes(a: &Vec<PathAttribute>, b: &Vec<PathAttribute>) -> (r: bool)
    ensures
        r == (spec_attribute_views(a@) == spec_attribute_views(b@)),
{
    if a.len() != b.len() {
        assert(spec_attribute_views(a@).len() != spec_attribute_views(b@).len());
        return false;
    }
    let mut i: usize = 0;
    while i < a.len()
        invariant
            i <= a.len(),
            a.len() == b.len(),
            forall|j: int| 0 <= j < i ==> a@[j]@ == b@[j]@,
        decreases a.len() - i,
    {
        if !a[i].equals(&b[i]) {
            assert(spec_attribute_views(a@)[i as int] != spec_attribute_views(b@)[i as int]);
            return false;
        }
        i = i + 1;
    }
    assert(spec_attribute_views(a@) =~= spec_attribute_views(b@));
    true
}

/// A copy of the list.
pub fn copy_attributes(attributes: &Vec<PathAttribute>) -> (r: Vec<PathAttribute>)
    ensures
        spec_attribute_views(r@) == spec_attribute_views(attributes@),
{
    let mut r: Vec<PathAttribute> = Vec::new();
    let mut i: usize = 0;
    while i < attributes.len()
        invariant
            i <= attributes.len(),
            r@.len() == i,
            forall|j: int| 0 <= j < i ==> r@[j]@ == attributes@[j]@,
        decreases attributes.len() - i,
    {
        r.push(attributes[i].clone());
        i = i + 1;
    }
    assert(spec_attribute_views(r@) =~= spec_attribute_views(attributes@));
    r
}

/// The AS numbers written out behind the two leading octets of a value are
/// those that are read back from it.
pub proof fn lemma_ases_round_trip(
    segment_type: u8,
    count: u8,
    members: Seq<AutonomousSystemNumber>,
)
    ensures
        spec_decode_ases(seq![segment_type, count] + spec_encode_ases(members)) == members,
        (seq![segment_type, count] + spec_encode_ases(members)).len() == 2 + 2 * members.len(),
{
    let value = seq![segment_type, count] + spec_encode_ases(members);
    let decoded = spec_decode_ases(value);
    if members.len() > 0 {
        assert(decoded.len() == members.len());
        assert forall|j: int| 0 <= j < members.len() implies decoded[j] == members[j] by {
            assert(value[2 + 2 * j] == spec_encode_ases(members)[2 * j]);
            assert(value[3 + 2 * j] == spec_encode_ases(members)[2 * j + 1]);
            assert((2 * j) % 2 == 0 && (2 * j) / 2 == j);
            assert((2 * j + 1) % 2 == 1 && (2 * j + 1) / 2 == j);
            let v = members[j].0;
            assert(spec_u16_from_be((v / 256) as u8, (v % 256) as u8) == v);
        }
    }
    assert(decoded =~= members);
}

/// A well-formed AS path is read back from the wire form of its value.
pub proof fn lemma_as_path_round_trip(path: AsPathView)
    requires
        path.wf(),
    ensures
        AsPathView::spec_decode(path.spec_encode()) == Ok::<
            AsPathView,
            ConvertBytesToBgpMessageError,
        >(path),
        path.spec_encode().len() == 2 + 2 * path.spec_members().len(),
{
    let members = path.spec_members();
    let count = (members.len() % 256) as u8;
    lemma_ases_round_trip(path.spec_segment_type(), count, members);
    let value = path.spec_encode();
    assert(value[0] == path.spec_segment_type());
    assert((value.len() - 2) % 2 == 0);
    match path {
        AsPathView::AsSequence(_) => {},
        AsPathView::AsSet(_) => {
            lemma_set_from_increasing(members);
        },
    }
}

/// The length of the wire form of an attribute: 4 for an origin, 7 for a
/// next hop; for an AS path of `n` AS numbers `2 + 2n` for the value and 3
/// before it, or 4 where the value is longer than 255 octets.
pub proof fn lemma_attribute_encoding_length(attribute: PathAttributeView)
    ensures
        attribute is Origin ==> attribute.spec_encode().len() == 4,
        attribute is NextHop ==> attribute.spec_encode().len() == 7,
        attribute matches PathAttributeView::AsPath(path) ==> {
            let value = 2 + 2 * path.spec_members().len();
            attribute.spec_encode().len() == value + if value > 255 {
                4int
            } else {
                3int
            }
        },
        attribute matches PathAttributeView::Unknown(raw) ==> attribute.spec_encode() == raw,
{
}

/// The flags of an interpreted attribute say that the length takes two
/// octets exactly where the value is longer than 255 octets, and the length
/// field then holds the length of the value, which ends the wire form.
pub proof fn lemma_attribute_length_field(attribute: PathAttributeView)
    requires
        !(attribute is Unknown),
        attribute.spec_fits(),
    ensures
        ({
            let bytes = attribute.spec_encode();
            let extended = bytes[0] & FLAG_EXTENDED_LENGTH != 0;
            let header: int = if extended {
                4
            } else {
                3
            };
            let length: int = if extended {
                spec_u16_from_be(bytes[2], bytes[3]) as int
            } else {
                bytes[2] as int
            };
            &&& bytes.len() >= 3
            &&& extended <==> bytes.len() - header > 255
            &&& header + length == bytes.len()
        }),
{
    assert(FLAGS_WELL_KNOWN & FLAG_EXTENDED_LENGTH == 0) by (bit_vector);
    assert(FLAGS_WELL_KNOWN_EXTENDED & FLAG_EXTENDED_LENGTH != 0) by (bit_vector);
    let bytes = attribute.spec_encode();
    match attribute {
        PathAttributeView::AsPath(path) => {
            let value = path.spec_encode();
            if value.len() >= 256 {
                let n = (value.len() % 65536) as u16;
                assert(bytes[2] == spec_u16_be(n)[0]);
                assert(bytes[3] == spec_u16_be(n)[1]);
                crate::wire::lemma_u16_be_round_trip(n);
            }
        },
        _ => {},
    }
}

/// An interpreted, well-formed attribute whose length field can hold the
/// length of its value is read back from the front of any bytes that start
/// with its wire form, and takes as many octets as the wire form has.
pub proof fn lemma_attribute_round_trip(attribute: PathAttributeView, tail: Seq<u8>)
    requires
        !(attribute is Unknown),
        attribute.wf(),
        attribute.spec_fits(),
    ensures
        PathAttributeView::spec_decode_first(attribute.spec_encode() + tail) == Ok::<
            (PathAttributeView, int),
            ConvertBytesToBgpMessageError,
        >((attribute, attribute.spec_encode().len() as int)),
        attribute.spec_encode().len() >= 3,
{
    lemma_attribute_length_field(attribute);
    let own = attribute.spec_encode();
    let bytes = own + tail;
    assert(bytes[0] == own[0]);
    assert(bytes[1] == own[1]);
    assert(bytes[2] == own[2]);
    let extended = bytes[0] & FLAG_EXTENDED_LENGTH != 0;
    let header: int = if extended {
        4
    } else {
        3
    };
    if extended {
        assert(bytes[3] == own[3]);
    }
    let length = own.len() - header;
    let value = bytes.subrange(header, header + length);
    assert(value =~= own.subrange(header, own.len() as int));
    match attribute {
        PathAttributeView::Origin(origin) => {
            assert(value[0] == origin.spec_code());
        },
        PathAttributeView::AsPath(path) => {
            assert(value =~= path.spec_encode());
            lemma_as_path_round_trip(path);
        },
        PathAttributeView::NextHop(next_hop) => {
            assert(value =~= next_hop.spec_octets());
        },
        PathAttributeView::Unknown(_) => {},
    }
}

/// The wire form of a list that starts with `first` is the wire form of
/// `first` followed by that of the rest.
pub proof fn lemma_encode_attributes_cons(first: PathAttributeView, rest: Seq<PathAttributeView>)
    ensures
        spec_encode_attributes(seq![first] + rest) == first.spec_encode() + spec_encode_attributes(
            rest,
        ),
    decreases rest.len(),
{
    let all = seq![first] + rest;
    if rest.len() == 0 {
        assert(all.drop_last() =~= Seq::<PathAttributeView>::empty());
        assert(spec_encode_attributes(all.drop_last()) =~= Seq::<u8>::empty());
        assert(spec_encode_attributes(all) =~= first.spec_encode());
        assert(first.spec_encode() + spec_encode_attributes(rest) =~= first.spec_encode());
    } else {
        lemma_encode_attributes_cons(first, rest.drop_last());
        assert(all.drop_last() =~= seq![first] + rest.drop_last());
        assert(all.last() == rest.last());
        assert(spec_encode_attributes(all) =~= first.spec_encode() + spec_encode_attributes(
            rest,
        ));
    }
}

/// Whether every attribute of the list is interpreted, well formed and has a
/// value that its length field can hold.
pub open spec fn spec_attributes_round_trip(attributes: Seq<PathAttributeView>) -> bool {
    forall|i: int|
        0 <= i < attributes.len() ==> {
            &&& !((#[trigger] attributes[i]) is Unknown)
            &&& attributes[i].wf()
            &&& attributes[i].spec_fits()
        }
}

/// A list of interpreted, well-formed attributes is read back from its wire
/// form as it was.
pub proof fn lemma_attributes_round_trip(attributes: Seq<PathAttributeView>)
    requires
        spec_attributes_round_trip(attributes),
    ensures
        spec_decode_attributes(spec_encode_attributes(attributes)) == Ok::<
            Seq<PathAttributeView>,
            ConvertBytesToBgpMessageError,
        >(attributes),
    decreases attributes.len(),
{
    if attributes.len() == 0 {
        assert(attributes =~= Seq::<PathAttributeView>::empty());
    } else {
        let first = attributes[0];
        let rest = attributes.drop_first();
        assert(attributes =~= seq![first] + rest);
        lemma_encode_attributes_cons(first, rest);
        let head = first.spec_encode();
        let tail = spec_encode_attributes(rest);
        let bytes = head + tail;
        assert forall|i: int| 0 <= i < rest.len() implies {
            &&& !((#[trigger] rest[i]) is Unknown)
            &&& rest[i].wf()
            &&& rest[i].spec_fits()
        } by {
            assert(rest[i] == attributes[i + 1]);
        }
        lemma_attributes_round_trip(rest);
        lemma_attribute_round_trip(first, tail);
        assert(bytes.skip(head.len() as int) =~= tail);
        assert(spec_encode_attributes(attributes) == bytes);
        assert(spec_decode_attributes(bytes) == spec_prepend_attributes(
            seq![first],
            spec_decode_attributes(tail),
        ));
    }
}

} // verus!
