//! Poses and moves, the order in which moves are listed, and the normal form of a list of
//! moves: strictly increasing in that order.

use std::cmp::Ordering;
use vstd::prelude::*;
use vstd::std_specs::cmp::{PartialEqSpecImpl, PartialOrdSpecImpl};
use crate::geometry::{Orientation, Piece};

verus! {

/// How a placement is classified by the corners it fills. Only the `T` piece earns
/// anything but `NoSpin`.
#[derive(Clone, Copy, Debug, PartialEq, Eq, PartialOrd, Ord, Hash, Structural)]
pub enum Spin {
    NoSpin,
    Mini,
    Full,
}

/// A pose: a piece, its rotation state and the position of its reference cell.
/// `x` counts columns from the left wall, `y` rows from the floor.
#[derive(Clone, Copy, Debug, PartialEq, Eq, PartialOrd, Ord, Hash, Structural)]
pub struct Location {
    pub piece: Piece,
    pub orientation: Orientation,
    pub x: i8,
    pub y: i8,
}

/// A pose together with its spin classification.
///
/// Two moves are equal where they agree in spin, orientation, column and row, and they
/// are ordered by spin, then orientation, then row, then column. The piece plays no
/// part in either: moves are compared among the moves of one piece. In a hash set a
/// move is stood for by its [`key`](Move::key), which leaves the piece out likewise.
#[derive(Clone, Copy, Debug, Eq)]
pub struct Move {
    pub location: Location,
    pub spin: Spin,
}

impl Spin {
    /// The place of the classification in the order `NoSpin`, `Mini`, `Full`.
    pub open spec fn index(self) -> int {
        match self {
            Spin::NoSpin => 0,
            Spin::Mini => 1,
            Spin::Full => 2,
        }
    }

    /// The place of the classification in the order `NoSpin`, `Mini`, `Full`.
    pub fn ordinal(self) -> (r: u8)
        ensures
            r == self.index(),
    {
        match self {
            Spin::NoSpin => 0,
            Spin::Mini => 1,
            Spin::Full => 2,
        }
    }
}

impl Orientation {
    /// The number of clockwise quarter turns from `North`.
    pub open spec fn index(self) -> int {
        match self {
            Orientation::North => 0,
            Orientation::East => 1,
            Orientation::South => 2,
            Orientation::West => 3,
        }
    }

    /// The number of clockwise quarter turns from `North`.
    pub fn ordinal(self) -> (r: u8)
        ensures
            r == self.index(),
    {
        match self {
            Orientation::North => 0,
            Orientation::East => 1,
            Orientation::South => 2,
            Orientation::West => 3,
        }
    }
}

impl Piece {
    /// The place of the piece in the order of declaration.
    pub open spec fn index(self) -> int {
        match self {
            Piece::O => 0,
            Piece::I => 1,
            Piece::T => 2,
            Piece::L => 3,
            Piece::J => 4,
            Piece::S => 5,
            Piece::Z => 6,
            Piece::G => 7,
        }
    }

    /// The place of the piece in the order of declaration.
    pub fn ordinal(self) -> (r: u8)
        ensures
            r == self.index(),
    {
        match self {
            Piece::O => 0,
            Piece::I => 1,
            Piece::T => 2,
            Piece::L => 3,
            Piece::J => 4,
            Piece::S => 5,
            Piece::Z => 6,
            Piece::G => 7,
        }
    }
}

impl Move {
    /// Whether the two moves agree in spin, orientation, column and row: this is what
    /// `==` means on moves.
    pub open spec fn same(self, other: Move) -> bool {
        &&& self.spin == other.spin
        &&& self.location.orientation == other.location.orientation
        &&& self.location.x == other.location.x
        &&& self.location.y == other.location.y
    }

    /// Whether `self` comes strictly before `other` in the order of moves: by spin, then
    /// orientation, then row, then column.
    pub open spec fn precedes(self, other: Move) -> bool {
        let a = self;
        let b = other;
        if a.spin != b.spin {
            a.spin.index() < b.spin.index()
        } else if a.location.orientation != b.location.orientation {
            a.location.orientation.index() < b.location.orientation.index()
        } else if a.location.y != b.location.y {
            a.location.y < b.location.y
        } else {
            a.location.x < b.location.x
        }
    }

    /// How the two moves compare in the order of moves.
    pub open spec fn compared(self, other: Move) -> Ordering {
        if self.precedes(other) {
            Ordering::Less
        } else if other.precedes(self) {
            Ordering::Greater
        } else {
            Ordering::Equal
        }
    }

    /// The number that stands for the move: it is made of spin, orientation, row and
    /// column, and leaves the piece out.
    pub open spec fn key_of(self) -> int {
        ((self.spin.index() * 4 + self.location.orientation.index()) * 256 + (self.location.y
            + 128)) * 256 + (self.location.x + 128)
    }

    /// Whether `self` comes strictly before `other` in the order of moves.
    pub fn comes_before(&self, other: &Move) -> (r: bool)
        ensures
            r == self.precedes(*other),
    {
        let s: u8 = self.spin.ordinal();
        let t: u8 = other.spin.ordinal();
        if s != t {
            return s < t;
        }
        let o: u8 = self.location.orientation.ordinal();
        let p: u8 = other.location.orientation.ordinal();
        if o != p {
            return o < p;
        }
        if self.location.y != other.location.y {
            return self.location.y < other.location.y;
        }
        self.location.x < other.location.x
    }

    /// The key that stands for the move in a hash set: spin, orientation, row and
    /// column, without the piece. Equal moves have the same key, and no others.
    pub fn key(&self) -> (k: u32)
        ensures
            k == self.key_of(),
            k < KEY_LIMIT,
    {
        let head: u32 = self.spin.ordinal() as u32 * 4 + self.location.orientation.ordinal() as u32;
        let row: u32 = (self.location.y as i32 + 128) as u32;
        let column: u32 = (self.location.x as i32 + 128) as u32;
        (head * 256 + row) * 256 + column
    }

    /// Equality of moves is an equivalence, and it leaves the piece out: moves that
    /// agree in spin, orientation, column and row are equal whatever their pieces.
    pub proof fn lemma_same_is_equivalence(self, other: Move, third: Move)
        ensures
            self.same(self),
            self.same(other) ==> other.same(self),
            self.same(other) && other.same(third) ==> self.same(third),
            self.same(Move { location: Location { piece: other.location.piece, ..self.location }, ..self }),
    {
    }

    /// The order of moves is strict: no move precedes itself or a move equal to it,
    /// and of two moves at most one precedes the other.
    pub proof fn lemma_precedes_asymmetric(self, other: Move)
        ensures
            !self.precedes(self),
            self.same(other) ==> !self.precedes(other) && !other.precedes(self),
            !(self.precedes(other) && other.precedes(self)),
    {
    }

    /// The order of moves is transitive.
    pub proof fn lemma_precedes_transitive(self, middle: Move, last: Move)
        requires
            self.precedes(middle),
            middle.precedes(last),
        ensures
            self.precedes(last),
    {
    }

    /// The order of moves is total: two moves of which neither precedes the other are
    /// equal.
    pub proof fn lemma_precedes_total(self, other: Move)
        ensures
            self.precedes(other) || other.precedes(self) || self.same(other),
    {
    }

    /// Every key lies below the limit.
    pub proof fn lemma_key_bounded(self)
        ensures
            0 <= self.key_of() < KEY_LIMIT,
    {
    }

    /// The order of the keys is the order of moves, and equal keys are the keys of
    /// equal moves.
    pub proof fn lemma_key_order(self, other: Move)
        ensures
            self.key_of() < other.key_of() <==> self.precedes(other),
            self.key_of() == other.key_of() <==> self.same(other),
    {
    }

    /// Two moves of one piece with the same key are the same in every field.
    pub proof fn lemma_key_identifies(self, other: Move)
        requires
            self.location.piece == other.location.piece,
            self.key_of() == other.key_of(),
        ensures
            self == other,
    {
    }
}

impl PartialEq for Move {
    /// Whether the two moves agree in spin, orientation, column and row.
    fn eq(&self, other: &Move) -> (r: bool) {
        self.spin == other.spin && self.location.orientation == other.location.orientation
            && self.location.x == other.location.x && self.location.y == other.location.y
    }
}

impl PartialEqSpecImpl for Move {
    open spec fn obeys_eq_spec() -> bool {
        true
    }

    open spec fn eq_spec(&self, other: &Move) -> bool {
        self.same(*other)
    }
}

impl PartialOrd for Move {
    /// How the two moves compare by spin, then orientation, then row, then column.
    fn partial_cmp(&self, other: &Move) -> (r: Option<Ordering>) {
        if self.comes_before(other) {
            Some(Ordering::Less)
        } else if other.comes_before(self) {
            Some(Ordering::Greater)
        } else {
            Some(Ordering::Equal)
        }
    }
}

impl PartialOrdSpecImpl for Move {
    open spec fn obeys_partial_cmp_spec() -> bool {
        true
    }

    open spec fn partial_cmp_spec(&self, other: &Move) -> Option<Ordering> {
        Some(self.compared(*other))
    }
}

/// Every key lies below this bound.
pub const KEY_LIMIT: u32 = 786432;

/// Whether each move of the list comes strictly before all that follow it.
pub open spec fn strictly_sorted(list: Seq<Move>) -> bool {
    forall|i: int, j: int| 0 <= i < j < list.len() ==> (#[trigger] list[i]).precedes(#[trigger] list[j])
}

/// Whether two lists hold the same moves, piece and all, whatever their order and
/// however often.
pub open spec fn same_moves(a: Seq<Move>, b: Seq<Move>) -> bool {
    forall|m: Move| a.contains(m) <==> b.contains(m)
}

/// Whether the list holds a move equal to `m`.
pub open spec fn holds_equal(list: Seq<Move>, m: Move) -> bool {
    exists|i: int| 0 <= i < list.len() && (#[trigger] list[i]).same(m)
}

/// Whether no move of the list before the one at `at` is equal to it.
pub open spec fn first_of_its_kind(list: Seq<Move>, at: int) -> bool {
    &&& 0 <= at < list.len()
    &&& forall|k: int| 0 <= k < at ==> !(#[trigger] list[k]).same(list[at])
}

/// Whether `m` stands in the list, piece and all, with no move equal to it before it.
pub open spec fn holds_first(list: Seq<Move>, m: Move) -> bool {
    exists|at: int| #[trigger] first_of_its_kind(list, at) && list[at] == m
}

/// Whether `normal` is `list` sorted with its duplicates removed: it is strictly
/// sorted, and of the moves of `list` that are equal to each other it holds the one
/// that comes first in `list`.
pub open spec fn is_normal_form(normal: Seq<Move>, list: Seq<Move>) -> bool {
    &&& strictly_sorted(normal)
    &&& forall|i: int| 0 <= i < normal.len() ==> #[trigger] holds_first(list, normal[i])
    &&& forall|j: int| 0 <= j < list.len() ==> #[trigger] holds_equal(normal, list[j])
}

/// No two moves of a strictly sorted list are equal.
pub proof fn lemma_sorted_moves_differ(list: Seq<Move>, i: int, j: int)
    requires
        strictly_sorted(list),
        0 <= i < list.len(),
        0 <= j < list.len(),
        list[i].same(list[j]),
    ensures
        i == j,
{
    if i < j {
        assert(list[i].precedes(list[j]));
    }
    if j < i {
        assert(list[j].precedes(list[i]));
    }
}

/// A strictly sorted list is determined by the moves it holds, piece and all.
pub proof fn lemma_sorted_lists_agree(a: Seq<Move>, b: Seq<Move>)
    requires
        strictly_sorted(a),
        strictly_sorted(b),
        same_moves(a, b),
    ensures
        a == b,
    decreases a.len(),
{
    if a.len() == 0 {
        if b.len() > 0 {
            assert(b.contains(b[0]));
            assert(a.contains(b[0]));
        }
        assert(a =~= b);
    } else {
        assert(a.contains(a[0]));
        let j = choose|j: int| 0 <= j < b.len() && b[j] == a[0];
        assert(b.contains(b[0]));
        let i = choose|i: int| 0 <= i < a.len() && a[i] == b[0];
        // Each list starts with its least move, and the least move is the same.
        if i > 0 {
            assert(a[0].precedes(a[i]));
            if j > 0 {
                assert(b[0].precedes(b[j]));
            }
            a[0].lemma_precedes_asymmetric(b[0]);
        }
        assert(a[0] == b[0]);
        let a1 = a.subrange(1, a.len() as int);
        let b1 = b.subrange(1, b.len() as int);
        assert forall|m: Move| a1.contains(m) <==> b1.contains(m) by {
            if a1.contains(m) {
                let k = choose|k: int| 0 <= k < a1.len() && a1[k] == m;
                assert(a[k + 1] == m);
                assert(a[0].precedes(a[k + 1]));
                assert(a.contains(m));
                let l = choose|l: int| 0 <= l < b.len() && b[l] == m;
                a[0].lemma_precedes_asymmetric(m);
                assert(l > 0);
                assert(b1[l - 1] == m);
            }
            if b1.contains(m) {
                let k = choose|k: int| 0 <= k < b1.len() && b1[k] == m;
                assert(b[k + 1] == m);
                assert(b[0].precedes(b[k + 1]));
                assert(b.contains(m));
                let l = choose|l: int| 0 <= l < a.len() && a[l] == m;
                b[0].lemma_precedes_asymmetric(m);
                assert(l > 0);
                assert(a1[l - 1] == m);
            }
        }
        assert(strictly_sorted(a1)) by {
            assert forall|p: int, q: int| 0 <= p < q < a1.len() implies (#[trigger] a1[p]).precedes(
                #[trigger] a1[q],
            ) by {
                assert(a[p + 1].precedes(a[q + 1]));
            }
        }
        assert(strictly_sorted(b1)) by {
            assert forall|p: int, q: int| 0 <= p < q < b1.len() implies (#[trigger] b1[p]).precedes(
                #[trigger] b1[q],
            ) by {
                assert(b[p + 1].precedes(b[q + 1]));
            }
        }
        lemma_sorted_lists_agree(a1, b1);
        assert(a =~= seq![a[0]] + a1);
        assert(b =~= seq![b[0]] + b1);
    }
}

/// The first of the moves of a list that are equal to each other is one move only.
proof fn lemma_first_is_one(list: Seq<Move>, m: Move, n: Move)
    requires
        holds_first(list, m),
        holds_first(list, n),
        m.same(n),
    ensures
        m == n,
{
    let a = choose|at: int| #[trigger] first_of_its_kind(list, at) && list[at] == m;
    let b = choose|at: int| #[trigger] first_of_its_kind(list, at) && list[at] == n;
    if a < b {
        assert(list[a].same(list[b]));
    }
    if b < a {
        assert(list[b].same(list[a]));
    }
}

/// A list has one normal form only.
pub proof fn lemma_normal_form_unique(first: Seq<Move>, second: Seq<Move>, list: Seq<Move>)
    requires
        is_normal_form(first, list),
        is_normal_form(second, list),
    ensures
        first == second,
{
    assert forall|m: Move| first.contains(m) <==> second.contains(m) by {
        if first.contains(m) {
            lemma_normal_forms_hold_the_same(first, second, list, m);
        }
        if second.contains(m) {
            lemma_normal_forms_hold_the_same(second, first, list, m);
        }
    }
    lemma_sorted_lists_agree(first, second);
}

/// What one normal form of a list holds, another holds too.
proof fn lemma_normal_forms_hold_the_same(first: Seq<Move>, second: Seq<Move>, list: Seq<Move>, m: Move)
    requires
        is_normal_form(first, list),
        is_normal_form(second, list),
        first.contains(m),
    ensures
        second.contains(m),
{
    let i = choose|i: int| 0 <= i < first.len() && first[i] == m;
    assert(holds_first(list, first[i]));
    let a = choose|at: int| #[trigger] first_of_its_kind(list, at) && list[at] == m;
    assert(holds_equal(second, list[a]));
    let k = choose|k: int| 0 <= k < second.len() && (#[trigger] second[k]).same(list[a]);
    assert(holds_first(list, second[k]));
    lemma_first_is_one(list, second[k], m);
}

/// The normal form of a strictly sorted list is that list.
pub proof fn lemma_normal_form_of_sorted(list: Seq<Move>, normal: Seq<Move>)
    requires
        strictly_sorted(list),
        is_normal_form(normal, list),
    ensures
        normal == list,
{
    assert forall|m: Move| normal.contains(m) <==> list.contains(m) by {
        if normal.contains(m) {
            let i = choose|i: int| 0 <= i < normal.len() && normal[i] == m;
            assert(holds_first(list, normal[i]));
            let a = choose|at: int| #[trigger] first_of_its_kind(list, at) && list[at] == m;
            assert(list[a] == m);
        }
        if list.contains(m) {
            let j = choose|j: int| 0 <= j < list.len() && list[j] == m;
            assert(holds_equal(normal, list[j]));
            let k = choose|k: int| 0 <= k < normal.len() && (#[trigger] normal[k]).same(list[j]);
            assert(holds_first(list, normal[k]));
            let a = choose|at: int| #[trigger] first_of_its_kind(list, at) && list[at] == normal[k];
            lemma_sorted_moves_differ(list, a, j);
            assert(normal[k] == m);
        }
    }
    lemma_sorted_lists_agree(normal, list);
}

/// Sorting and removing duplicates a second time changes nothing: the normal form of a
/// list in normal form is that list.
pub proof fn lemma_normal_form_idempotent(list: Seq<Move>, once: Seq<Move>, twice: Seq<Move>)
    requires
        is_normal_form(once, list),
        is_normal_form(twice, once),
    ensures
        twice == once,
{
    lemma_normal_form_of_sorted(once, twice);
}

/// A normal form stays one when a move joins the list of which a move equal to it is
/// in the normal form already.
proof fn lemma_normal_form_skips(normal: Seq<Move>, list: Seq<Move>, m: Move, at: int)
    requires
        is_normal_form(normal, list),
        0 <= at < normal.len(),
        normal[at].same(m),
    ensures
        is_normal_form(normal, list.push(m)),
{
    let longer = list.push(m);
    assert forall|i: int| 0 <= i < normal.len() implies #[trigger] holds_first(longer, normal[i]) by {
        assert(holds_first(list, normal[i]));
        let a = choose|a: int| #[trigger] first_of_its_kind(list, a) && list[a] == normal[i];
        assert forall|k: int| 0 <= k < a implies !(#[trigger] longer[k]).same(longer[a]) by {
            assert(!list[k].same(list[a]));
        }
        assert(first_of_its_kind(longer, a) && longer[a] == normal[i]);
    }
    assert forall|j: int| 0 <= j < longer.len() implies #[trigger] holds_equal(normal, longer[j]) by {
        if j < list.len() {
            assert(holds_equal(normal, list[j]));
        } else {
            assert(normal[at].same(longer[j]));
        }
    }
}

/// A normal form with a move put in at its place in the order is the normal form of
/// the list that the move has joined, if no move equal to it was in the normal form.
proof fn lemma_normal_form_takes(normal: Seq<Move>, list: Seq<Move>, m: Move, at: int)
    requires
        is_normal_form(normal, list),
        0 <= at <= normal.len(),
        forall|j: int| 0 <= j < at ==> (#[trigger] normal[j]).precedes(m),
        at < normal.len() ==> m.precedes(normal[at]),
    ensures
        is_normal_form(normal.insert(at, m), list.push(m)),
{
    let longer = list.push(m);
    let grown = normal.insert(at, m);
    assert forall|p: int, q: int| 0 <= p < q < grown.len() implies (#[trigger] grown[p]).precedes(
        #[trigger] grown[q],
    ) by {
        if q < at {
            assert(normal[p].precedes(normal[q]));
        } else if q == at {
            assert(normal[p].precedes(m));
        } else if p == at {
            if q - 1 > at {
                assert(normal[at].precedes(normal[q - 1]));
                m.lemma_precedes_transitive(normal[at], normal[q - 1]);
            }
        } else if p < at {
            assert(normal[p].precedes(normal[q - 1]));
        } else {
            assert(normal[p - 1].precedes(normal[q - 1]));
        }
    }
    // No move of the normal form is equal to the one that joins.
    assert forall|k: int| 0 <= k < normal.len() implies !(#[trigger] normal[k]).same(m) by {
        if k < at {
            assert(normal[k].precedes(m));
        } else {
            if k > at {
                assert(normal[at].precedes(normal[k]));
                m.lemma_precedes_transitive(normal[at], normal[k]);
            }
            assert(m.precedes(normal[k]));
        }
        m.lemma_precedes_asymmetric(normal[k]);
    }
    assert forall|i: int| 0 <= i < grown.len() implies #[trigger] holds_first(longer, grown[i]) by {
        if i == at {
            let a = list.len() as int;
            assert forall|k: int| 0 <= k < a implies !(#[trigger] longer[k]).same(longer[a]) by {
                assert(holds_equal(normal, list[k]));
                let q = choose|q: int| 0 <= q < normal.len() && (#[trigger] normal[q]).same(list[k]);
                assert(!normal[q].same(m));
            }
            assert(first_of_its_kind(longer, a) && longer[a] == grown[i]);
        } else {
            let old = if i < at {
                i
            } else {
                i - 1
            };
            assert(grown[i] == normal[old]);
            assert(holds_first(list, normal[old]));
            let a = choose|a: int| #[trigger] first_of_its_kind(list, a) && list[a] == normal[old];
            assert forall|k: int| 0 <= k < a implies !(#[trigger] longer[k]).same(longer[a]) by {
                assert(!list[k].same(list[a]));
            }
            assert(first_of_its_kind(longer, a) && longer[a] == grown[i]);
        }
    }
    assert forall|j: int| 0 <= j < longer.len() implies #[trigger] holds_equal(grown, longer[j]) by {
        if j < list.len() {
            assert(holds_equal(normal, list[j]));
            let q = choose|q: int| 0 <= q < normal.len() && (#[trigger] normal[q]).same(list[j]);
            if q < at {
                assert(grown[q].same(longer[j]));
            } else {
                assert(grown[q + 1].same(longer[j]));
            }
        } else {
            assert(grown[at].same(longer[j]));
        }
    }
}

/// The list in the order of moves, with one move kept of those that are equal to each
/// other: the one that comes first in the list.
pub fn sorted_distinct(moves: &Vec<Move>) -> (normal: Vec<Move>)
    ensures
        is_normal_form(normal@, moves@),
{
    let mut normal: Vec<Move> = Vec::new();
    let mut i: usize = 0;
    while i < moves.len()
        invariant
            i <= moves.len(),
            is_normal_form(normal@, moves@.take(i as int)),
        decreases moves.len() - i,
    {
        let m = moves[i];
        let mut at: usize = 0;
        while at < normal.len() && normal[at].comes_before(&m)
            invariant
                at <= normal.len(),
                forall|j: int| 0 <= j < at ==> (#[trigger] normal@[j]).precedes(m),
            decreases normal.len() - at,
        {
            at += 1;
        }
        proof {
            assert(moves@.take(i as int + 1) =~= moves@.take(i as int).push(m));
        }
        if at == normal.len() || m.comes_before(&normal[at]) {
            proof {
                lemma_normal_form_takes(normal@, moves@.take(i as int), m, at as int);
            }
            normal.insert(at, m);
        } else {
            proof {
                m.lemma_precedes_total(normal@[at as int]);
                lemma_normal_form_skips(normal@, moves@.take(i as int), m, at as int);
            }
        }
        i += 1;
    }
    assert(moves@.take(i as int) =~= moves@);
    normal
}

} // verus!
