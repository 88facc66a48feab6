//! Value specifiers and the witnesses that matching them produces.

use vstd::arithmetic::div_mod::{
    lemma_div_is_ordered, lemma_fundamental_div_mod, lemma_fundamental_div_mod_converse,
    lemma_mod_pos_bound,
};
use vstd::prelude::*;

verus! {

/// An inclusive range between two numbers, written `3-10` in a configuration.
#[derive(Debug, Clone, Copy, PartialEq, Eq, Structural)]
pub struct Range(pub u32, pub u32);

impl Range {
    /// A range is well formed when its lower end does not exceed its upper end.
    pub open spec fn wf(self) -> bool {
        self.0 <= self.1
    }

    /// Whether `n` lies within the range, both ends included.
    pub open spec fn spec_contains(self, n: u32) -> bool {
        self.0 <= n && n <= self.1
    }

    /// Whether `n` lies within the range, both ends included.
    pub fn contains(&self, n: u32) -> (r: bool)
        ensures
            r == self.spec_contains(n),
    {
        self.0 <= n && n <= self.1
    }
}

/// Where in a range a matched number lay: `offset` steps above the lower end
/// of a range that is `span` steps wide. It stands for the fraction
/// `offset / span`, kept exact.
#[derive(Debug, Clone, Copy, PartialEq, Eq, Structural)]
pub struct Position {
    pub offset: u32,
    pub span: u32,
}

impl Position {
    /// A position produced by a match never lies beyond the end of its range.
    pub open spec fn wf(self) -> bool {
        self.offset <= self.span
    }
}

/// The information returned when part of a message is matched against a [`Number`].
#[derive(Debug, Clone, Copy, PartialEq, Eq, Structural)]
pub enum NumberMatch {
    /// Contains the matched value.
    Value(u32),
    /// Contains the position in the range which was matched.
    Range(Position),
}

/// A specification for a number or range of numbers,
/// e.g. the velocity value of a MIDI note on message.
#[derive(Debug, Clone, Copy, PartialEq, Eq, Structural)]
pub enum Number {
    Any,
    Value(u32),
    Range(Range),
}

/// The quotient `num / den` rounded to the nearest integer, a tie going to
/// the even neighbour.
pub open spec fn round_half_even(num: int, den: int) -> int
    recommends
        num >= 0,
        den > 0,
{
    let q = num / den;
    let r = num % den;
    if 2 * r < den {
        q
    } else if 2 * r > den {
        q + 1
    } else if q % 2 == 0 {
        q
    } else {
        q + 1
    }
}

/// `x` held within `[lo, hi]`.
pub open spec fn clamp(x: int, lo: int, hi: int) -> int {
    if x < lo {
        lo
    } else if x > hi {
        hi
    } else {
        x
    }
}

/// The number that lies at `offset / span` of the way from `lo` to `hi`:
/// `lo + (offset / span) * (hi - lo)`, rounded half to even and held within
/// `[lo, hi]`. A range of zero width has only its lower end to offer.
pub open spec fn interpolate(lo: int, hi: int, offset: int, span: int) -> int {
    if span == 0 {
        lo
    } else {
        clamp(round_half_even(lo * span + offset * (hi - lo), span), lo, hi)
    }
}

impl Number {
    /// What matching `n` against this specifier yields.
    pub open spec fn spec_matches(self, n: u32) -> Option<NumberMatch> {
        match self {
            Number::Any => Some(NumberMatch::Value(n)),
            Number::Value(m) => if n == m {
                Some(NumberMatch::Value(n))
            } else {
                None
            },
            Number::Range(r) => if r.spec_contains(n) {
                Some(
                    NumberMatch::Range(
                        Position { offset: (n - r.0) as u32, span: (r.1 - r.0) as u32 },
                    ),
                )
            } else {
                None
            },
        }
    }

    /// What this specifier generates from the witness of an earlier match.
    pub open spec fn spec_generate(self, matched: NumberMatch) -> Option<u32> {
        match (self, matched) {
            (Number::Any, NumberMatch::Value(val)) => Some(val),
            (Number::Value(val), NumberMatch::Value(_)) => Some(val),
            (Number::Range(r), NumberMatch::Range(p)) => if r.wf() {
                Some(interpolate(r.0 as int, r.1 as int, p.offset as int, p.span as int) as u32)
            } else {
                None
            },
            _ => None,
        }
    }

    /// Checks `n` against the specifier. `Any` and an equal `Value` hand the
    /// number on; a range that holds it hands on its position in the range.
    pub fn matches(&self, n: u32) -> (r: Option<NumberMatch>)
        ensures
            r == self.spec_matches(n),
            r matches Some(NumberMatch::Value(v)) ==> !(self is Range) && v == n,
            r matches Some(NumberMatch::Range(p)) ==> self is Range && p.wf(),
    {
        match self {
            Number::Any => Some(NumberMatch::Value(n)),
            Number::Value(m) => {
                if n == *m {
                    Some(NumberMatch::Value(n))
                } else {
                    None
                }
            },
            Number::Range(r) => {
                if r.contains(n) {
                    Some(NumberMatch::Range(Position { offset: n - r.0, span: r.1 - r.0 }))
                } else {
                    None
                }
            },
        }
    }

    /// Produces a number from the witness of an earlier match. `Any` hands
    /// the matched value on, `Value` gives its own, and a range gives the
    /// number at the witness's position in it. A witness of the other kind
    /// generates nothing, nor does an inverted range.
    pub fn generate(&self, matched: NumberMatch) -> (r: Option<u32>)
        ensures
            r == self.spec_generate(matched),
    {
        match (self, matched) {
            (Number::Any, NumberMatch::Value(val)) => Some(val),
            (Number::Value(val), NumberMatch::Value(_)) => Some(*val),
            (Number::Range(r), NumberMatch::Range(p)) => {
                if r.0 <= r.1 {
                    Some(interpolate_exec(r.0, r.1, p.offset, p.span))
                } else {
                    None
                }
            },
            _ => None,
        }
    }

    /// Returns the desired default when no `Number` is specified.
    pub fn default_vec() -> (v: Vec<Number>)
        ensures
            v@ == seq![Number::Any],
    {
        let mut v: Vec<Number> = Vec::new();
        v.push(Number::Any);
        v
    }
}

/// Computes [`interpolate`] in 128-bit arithmetic, which cannot overflow on
/// 32-bit operands.
fn interpolate_exec(lo: u32, hi: u32, offset: u32, span: u32) -> (r: u32)
    requires
        lo <= hi,
    ensures
        r == interpolate(lo as int, hi as int, offset as int, span as int),
        lo <= r <= hi,
{
    if span == 0 {
        return lo;
    }
    let width: u128 = (hi - lo) as u128;
    let den: u128 = span as u128;
    assert(lo as int * span as int <= 0xFFFF_FFFF * 0xFFFF_FFFF) by (nonlinear_arith)
        requires
            0 <= lo <= 0xFFFF_FFFF,
            0 <= span <= 0xFFFF_FFFF,
    ;
    assert(offset as int * (hi - lo) <= 0xFFFF_FFFF * 0xFFFF_FFFF) by (nonlinear_arith)
        requires
            0 <= offset <= 0xFFFF_FFFF,
            0 <= hi - lo <= 0xFFFF_FFFF,
    ;
    assert(0 <= lo as int * span as int) by (nonlinear_arith)
        requires
            0 <= lo,
            0 <= span,
    ;
    assert(0 <= offset as int * (hi - lo)) by (nonlinear_arith)
        requires
            0 <= offset,
            0 <= hi - lo,
    ;
    let num: u128 = (lo as u128) * den + (offset as u128) * width;
    let q: u128 = num / den;
    let rem: u128 = num % den;
    let rounded: u128 = if 2 * rem < den {
        q
    } else if 2 * rem > den {
        q + 1
    } else if q % 2 == 0 {
        q
    } else {
        q + 1
    };
    if rounded < lo as u128 {
        lo
    } else if rounded > hi as u128 {
        hi
    } else {
        rounded as u32
    }
}

/// Rounding never goes below the quotient nor more than one above it, and
/// it keeps the order of the numerators.
pub proof fn lemma_round_half_even_ordered(x: int, y: int, den: int)
    requires
        0 <= x <= y,
        den > 0,
    ensures
        x / den <= round_half_even(x, den) <= x / den + 1,
        round_half_even(x, den) <= round_half_even(y, den),
{
    lemma_div_is_ordered(x, y, den);
    lemma_fundamental_div_mod(x, den);
    lemma_fundamental_div_mod(y, den);
    lemma_mod_pos_bound(x, den);
    lemma_mod_pos_bound(y, den);
    if x / den == y / den {
        assert(den * (x / den) == den * (y / den));
        assert(x % den <= y % den);
    }
}

/// A whole multiple of the denominator rounds to the multiplier.
pub proof fn lemma_round_half_even_exact(q: int, den: int)
    requires
        0 <= q,
        den > 0,
    ensures
        round_half_even(q * den, den) == q,
{
    assert(q * den == den * q + 0) by (nonlinear_arith);
    lemma_fundamental_div_mod_converse(q * den, den, q, 0);
}

/// A position within its range is interpolated to a number within the
/// target range: holding it within the range changes nothing.
pub proof fn lemma_interpolate_within(lo: int, hi: int, offset: int, span: int)
    requires
        0 <= lo <= hi,
        0 <= offset <= span,
        span > 0,
    ensures
        lo <= round_half_even(lo * span + offset * (hi - lo), span) <= hi,
        interpolate(lo, hi, offset, span) == round_half_even(
            lo * span + offset * (hi - lo),
            span,
        ),
{
    let num = lo * span + offset * (hi - lo);
    assert(0 <= lo * span <= num <= hi * span) by (nonlinear_arith)
        requires
            num == lo * span + offset * (hi - lo),
            0 <= lo <= hi,
            0 <= offset <= span,
    ;
    lemma_round_half_even_exact(lo, span);
    lemma_round_half_even_exact(hi, span);
    lemma_round_half_even_ordered(lo * span, num, span);
    lemma_round_half_even_ordered(num, hi * span, span);
}

/// Interpolation keeps the order of positions within one range.
pub proof fn lemma_interpolate_monotonic(lo: int, hi: int, a: int, b: int, span: int)
    requires
        0 <= lo <= hi,
        0 <= a <= b,
        0 <= span,
    ensures
        interpolate(lo, hi, a, span) <= interpolate(lo, hi, b, span),
{
    if span > 0 {
        let x = lo * span + a * (hi - lo);
        let y = lo * span + b * (hi - lo);
        assert(0 <= x <= y) by (nonlinear_arith)
            requires
                x == lo * span + a * (hi - lo),
                y == lo * span + b * (hi - lo),
                0 <= lo <= hi,
                0 <= a <= b,
                span > 0,
        ;
        lemma_round_half_even_ordered(x, y, span);
    }
}

/// Matching a number against one range and generating from the witness
/// with another maps the first range onto the second linearly: `n` in
/// `[a, b]` becomes `a' + (n - a) * (b' - a') / (b - a)`, rounded half to
/// even, which lies in `[a', b']`. A source range of one number maps it to `a'`.
pub proof fn lemma_range_to_range(from: Range, to: Range, n: u32)
    requires
        from.spec_contains(n),
        to.wf(),
    ensures
        Number::Range(from).spec_matches(n) is Some,
        Number::Range(to).spec_generate(Number::Range(from).spec_matches(n).unwrap()) == Some(
            interpolate(to.0 as int, to.1 as int, n - from.0, from.1 - from.0) as u32,
        ),
        from.0 < from.1 ==> interpolate(to.0 as int, to.1 as int, n - from.0, from.1 - from.0)
            == round_half_even(
            to.0 * (from.1 - from.0) + (n - from.0) * (to.1 - to.0),
            from.1 - from.0,
        ),
        to.0 <= interpolate(to.0 as int, to.1 as int, n - from.0, from.1 - from.0) <= to.1,
{
    if from.0 < from.1 {
        lemma_interpolate_within(to.0 as int, to.1 as int, n - from.0, from.1 - from.0);
    }
}

/// The map from one range onto another keeps the order of the numbers.
pub proof fn lemma_range_to_range_monotonic(from: Range, to: Range, m: u32, n: u32)
    requires
        from.spec_contains(m),
        from.spec_contains(n),
        to.wf(),
        m <= n,
    ensures
        Number::Range(to).spec_generate(Number::Range(from).spec_matches(m).unwrap()).unwrap()
            <= Number::Range(to).spec_generate(
            Number::Range(from).spec_matches(n).unwrap(),
        ).unwrap(),
{
    lemma_range_to_range(from, to, m);
    lemma_range_to_range(from, to, n);
    lemma_interpolate_monotonic(
        to.0 as int,
        to.1 as int,
        m - from.0,
        n - from.0,
        from.1 - from.0,
    );
}

/// What a specifier matched, it generates again: generating from the
/// witness of a match with the same specifier gives the matched number back.
pub proof fn lemma_generate_matched(spec: Number, n: u32)
    requires
        spec.spec_matches(n) is Some,
    ensures
        spec.spec_generate(spec.spec_matches(n).unwrap()) == Some(n),
{
    if let Number::Range(r) = spec {
        if r.0 < r.1 {
            let span = r.1 - r.0;
            assert(r.0 * span + (n - r.0) * span == n * span) by (nonlinear_arith);
            lemma_round_half_even_exact(n as int, span);
        }
    }
}

/// The first specifier of `specs` at or after index `from` that matches `n`,
/// with its index.
pub open spec fn spec_matches_from(specs: Seq<Number>, n: u32, from: int) -> Option<
    (usize, NumberMatch),
>
    decreases specs.len() - from,
{
    if from < 0 || from >= specs.len() {
        None
    } else {
        match specs[from].spec_matches(n) {
            Some(m) => Some((from as usize, m)),
            None => spec_matches_from(specs, n, from + 1),
        }
    }
}

/// The first specifier of `specs` that matches `n`, with its index.
pub open spec fn spec_matches_many(specs: Seq<Number>, n: u32) -> Option<(usize, NumberMatch)> {
    spec_matches_from(specs, n, 0)
}

/// Tries the specifiers in order and returns the index and witness of the
/// first that matches `n`, or nothing when none does.
pub fn matches_many(specs: &Vec<Number>, n: u32) -> (r: Option<(usize, NumberMatch)>)
    ensures
        r == spec_matches_many(specs@, n),
{
    let mut i: usize = 0;
    while i < specs.len()
        invariant
            i <= specs.len(),
            spec_matches_many(specs@, n) == spec_matches_from(specs@, n, i as int),
        decreases specs.len() - i,
    {
        if let Some(m) = specs[i].matches(n) {
            return Some((i, m));
        }
        i += 1;
    }
    None
}

/// The search returns the least index whose specifier matches, with that
/// specifier's witness; it returns nothing only when no specifier matches.
pub proof fn lemma_matches_many_is_first(specs: Seq<Number>, n: u32)
    requires
        specs.len() <= usize::MAX,
    ensures
        match spec_matches_many(specs, n) {
            Some((i, m)) => {
                &&& i < specs.len()
                &&& specs[i as int].spec_matches(n) == Some(m)
                &&& forall|j: int| 0 <= j < i ==> (#[trigger] specs[j]).spec_matches(n) is None
            },
            None => forall|j: int|
                0 <= j < specs.len() ==> (#[trigger] specs[j]).spec_matches(n) is None,
        },
{
    lemma_matches_from(specs, n, 0);
}

proof fn lemma_matches_from(specs: Seq<Number>, n: u32, from: int)
    requires
        0 <= from,
        specs.len() <= usize::MAX,
    ensures
        match spec_matches_from(specs, n, from) {
            Some((i, m)) => {
                &&& from <= i < specs.len()
                &&& specs[i as int].spec_matches(n) == Some(m)
                &&& forall|j: int| from <= j < i ==> (#[trigger] specs[j]).spec_matches(n) is None
            },
            None => forall|j: int|
                from <= j < specs.len() ==> (#[trigger] specs[j]).spec_matches(n) is None,
        },
    decreases specs.len() - from,
{
    if from < specs.len() && specs[from].spec_matches(n) is None {
        lemma_matches_from(specs, n, from + 1);
    }
}

/// What matching one field of a message yielded: which specifier of the
/// field's list matched, and its witness.
#[derive(Debug, Clone, PartialEq, Eq)]
pub struct FieldMatch {
    /// The field's name.
    pub field: String,
    /// The index of the specifier that matched.
    pub index: usize,
    /// The witness of the match.
    pub value: NumberMatch,
}

/// What a [`FieldMatch`] stands for.
pub struct FieldMatchView {
    pub field: Seq<char>,
    pub index: usize,
    pub value: NumberMatch,
}

impl View for FieldMatch {
    type V = FieldMatchView;

    open spec fn view(&self) -> FieldMatchView {
        FieldMatchView { field: self.field@, index: self.index, value: self.value }
    }
}

/// The entry that `entries` holds for `field`: the last one of that name.
pub open spec fn spec_lookup(entries: Seq<FieldMatchView>, field: Seq<char>) -> Option<
    (usize, NumberMatch),
>
    decreases entries.len(),
{
    if entries.len() == 0 {
        None
    } else if entries.last().field == field {
        Some((entries.last().index, entries.last().value))
    } else {
        spec_lookup(entries.drop_last(), field)
    }
}

/// Looking a field up behind one more entry: the new entry answers for its
/// own field and leaves the others to the entries before it.
pub proof fn lemma_lookup_push(entries: Seq<FieldMatchView>, entry: FieldMatchView, field: Seq<char>)
    ensures
        spec_lookup(entries.push(entry), field) == if entry.field == field {
            Some((entry.index, entry.value))
        } else {
            spec_lookup(entries, field)
        },
{
    assert(entries.push(entry).drop_last() =~= entries);
}

/// The mapping that the entries `entries` amount to: from each field's name
/// to the index and witness of its last entry.
pub open spec fn spec_as_map(entries: Seq<FieldMatchView>) -> Map<Seq<char>, (usize, NumberMatch)>
    decreases entries.len(),
{
    if entries.len() == 0 {
        Map::empty()
    } else {
        spec_as_map(entries.drop_last()).insert(
            entries.last().field,
            (entries.last().index, entries.last().value),
        )
    }
}

/// Looking a field up in the entries is looking it up in the mapping that
/// they amount to.
pub proof fn lemma_lookup_is_map(entries: Seq<FieldMatchView>, field: Seq<char>)
    ensures
        spec_lookup(entries, field) == if spec_as_map(entries).dom().contains(field) {
            Some(spec_as_map(entries)[field])
        } else {
            None
        },
    decreases entries.len(),
{
    if entries.len() > 0 {
        lemma_lookup_is_map(entries.drop_last(), field);
    }
}

/// The record of a successful match: for each field of the message, by name,
/// the index of the specifier that matched and its witness. An entry put in
/// later replaces an earlier one of the same name.
#[derive(Debug, Clone, PartialEq, Eq)]
pub struct Match {
    pub entries: Vec<FieldMatch>,
}

impl View for Match {
    type V = Seq<FieldMatchView>;

    open spec fn view(&self) -> Seq<FieldMatchView> {
        Seq::new(self.entries@.len(), |i: int| self.entries@[i]@)
    }
}

impl Match {
    /// A match with no entries.
    pub fn new() -> (m: Match)
        ensures
            m@ == Seq::<FieldMatchView>::empty(),
    {
        let m = Match { entries: Vec::new() };
        assert(m@ =~= Seq::<FieldMatchView>::empty());
        m
    }

    /// Records the match of `field`.
    pub fn insert(&mut self, field: String, index: usize, value: NumberMatch)
        ensures
            final(self)@ == old(self)@.push(FieldMatchView { field: field@, index, value }),
            spec_as_map(final(self)@) == spec_as_map(old(self)@).insert(field@, (index, value)),
    {
        self.entries.push(FieldMatch { field, index, value });
        assert(self@ =~= old(self)@.push(FieldMatchView { field: field@, index, value }));
        assert(self@.drop_last() =~= old(self)@);
    }

    /// The entry recorded for `field`, if there is one.
    pub fn get(&self, field: &str) -> (r: Option<(usize, NumberMatch)>)
        ensures
            r == spec_lookup(self@, field@),
    {
        let name: String = field.to_owned();
        let mut i: usize = self.entries.len();
        assert(self@.subrange(0, i as int) =~= self@);
        while i > 0
            invariant
                i <= self.entries.len(),
                name@ == field@,
                spec_lookup(self@, field@) == spec_lookup(self@.subrange(0, i as int), field@),
            decreases i,
        {
            i -= 1;
            assert(self@.subrange(0, i + 1).drop_last() =~= self@.subrange(0, i as int));
            if self.entries[i].field == name {
                return Some((self.entries[i].index, self.entries[i].value));
            }
        }
        None
    }
}

/// A renaming of fields: pairs of a name and the name that takes its place.
/// A name without a pair stays as it is; of two pairs for one name the later counts.
#[derive(Debug, Clone, PartialEq, Eq)]
pub struct FieldMap {
    pub pairs: Vec<(String, String)>,
}

/// The name that takes the place of `field` under the pairs `pairs`.
pub open spec fn spec_target(pairs: Seq<(Seq<char>, Seq<char>)>, field: Seq<char>) -> Seq<char>
    decreases pairs.len(),
{
    if pairs.len() == 0 {
        field
    } else if pairs.last().0 == field {
        pairs.last().1
    } else {
        spec_target(pairs.drop_last(), field)
    }
}

/// The entries of a match with each field renamed.
pub open spec fn spec_rename_all(
    entries: Seq<FieldMatchView>,
    pairs: Seq<(Seq<char>, Seq<char>)>,
) -> Seq<FieldMatchView> {
    Seq::new(
        entries.len(),
        |i: int|
            FieldMatchView {
                field: spec_target(pairs, entries[i].field),
                index: entries[i].index,
                value: entries[i].value,
            },
    )
}

/// A renaming that leaves every name alone leaves a match as it is.
pub proof fn lemma_rename_identity(
    entries: Seq<FieldMatchView>,
    pairs: Seq<(Seq<char>, Seq<char>)>,
)
    requires
        forall|field: Seq<char>| #[trigger] spec_target(pairs, field) == field,
    ensures
        spec_rename_all(entries, pairs) == entries,
{
    assert(spec_rename_all(entries, pairs) =~= entries);
}

impl View for FieldMap {
    type V = Seq<(Seq<char>, Seq<char>)>;

    open spec fn view(&self) -> Seq<(Seq<char>, Seq<char>)> {
        Seq::new(self.pairs@.len(), |i: int| (self.pairs@[i].0@, self.pairs@[i].1@))
    }
}

impl FieldMap {
    /// The renaming that leaves every name as it is.
    pub fn new() -> (m: FieldMap)
        ensures
            m@ == Seq::<(Seq<char>, Seq<char>)>::empty(),
            m.is_identity(),
    {
        let m = FieldMap { pairs: Vec::new() };
        assert(m@ =~= Seq::<(Seq<char>, Seq<char>)>::empty());
        m
    }

    /// Whether the renaming leaves every name as it is.
    pub open spec fn is_identity(&self) -> bool {
        forall|field: Seq<char>| #[trigger] spec_target(self@, field) == field
    }

    /// Lets `to` take the place of `from`.
    pub fn insert(&mut self, from: String, to: String)
        ensures
            final(self)@ == old(self)@.push((from@, to@)),
    {
        self.pairs.push((from, to));
        assert(self@ =~= old(self)@.push((from@, to@)));
    }

    /// The name that takes the place of `field`.
    pub fn target(&self, field: &String) -> (r: String)
        ensures
            r@ == spec_target(self@, field@),
    {
        let mut i: usize = self.pairs.len();
        assert(self@.subrange(0, i as int) =~= self@);
        while i > 0
            invariant
                i <= self.pairs.len(),
                spec_target(self@, field@) == spec_target(self@.subrange(0, i as int), field@),
            decreases i,
        {
            i -= 1;
            assert(self@.subrange(0, i + 1).drop_last() =~= self@.subrange(0, i as int));
            if self.pairs[i].0 == *field {
                return self.pairs[i].1.clone();
            }
        }
        field.clone()
    }

    /// Renames every field of `matched`, entry by entry.
    pub fn rename_all(&self, matched: &Match) -> (r: Match)
        ensures
            r@ == spec_rename_all(matched@, self@),
    {
        let mut entries: Vec<FieldMatch> = Vec::new();
        let mut i: usize = 0;
        while i < matched.entries.len()
            invariant
                i <= matched.entries.len(),
                entries@.len() == i,
                forall|j: int|
                    0 <= j < i ==> (#[trigger] entries@[j])@ == spec_rename_all(
                        matched@,
                        self@,
                    )[j],
            decreases matched.entries.len() - i,
        {
            let entry = &matched.entries[i];
            let field = self.target(&entry.field);
            entries.push(FieldMatch { field, index: entry.index, value: entry.value });
            i += 1;
        }
        let r = Match { entries };
        assert(r@ =~= spec_rename_all(matched@, self@));
        r
    }
}

/// A pattern over the messages of one family, which both matches a message
/// and generates one.
pub trait Template {
    /// The messages that the template matches and generates.
    type Message;

    /// What matching `msg` yields: nothing, or the match's entries in order.
    spec fn spec_matches(&self, msg: Self::Message) -> Option<Seq<FieldMatchView>>;

    /// The message that the entries of a match generate, if any.
    spec fn spec_generate(&self, matched: Seq<FieldMatchView>) -> Option<Self::Message>;

    /// Checks if the given message matches the template, and if it does,
    /// returns a [`Match`] describing the qualities of the match.
    fn matches(&self, msg: Self::Message) -> (r: Option<Match>)
        ensures
            r matches Some(m) ==> self.spec_matches(msg) == Some(m@),
            r is None ==> self.spec_matches(msg) is None,
    ;

    /// Given the qualities of a matched message, generates the appropriate
    /// output message.
    fn generate(&self, matched: Match) -> (r: Option<Self::Message>)
        ensures
            r == self.spec_generate(matched@),
    ;
}

/// Takes an input message and transforms it into the desired output message,
/// if the given input message matches the input template.
pub struct Transformer<Fr, To> {
    pub input: Fr,
    pub output: To,
    pub field_map: FieldMap,
}

impl<Fr: Template, To: Template> Transformer<Fr, To> {
    /// What the transformer makes of `in_msg`: a message that the input
    /// template does not match yields nothing; of one that it matches, the
    /// match's fields are renamed and handed to the output template.
    pub open spec fn spec_transform(&self, in_msg: Fr::Message) -> Option<To::Message> {
        match self.input.spec_matches(in_msg) {
            Some(entries) => self.output.spec_generate(
                spec_rename_all(entries, self.field_map@),
            ),
            None => None,
        }
    }

    /// Matches `in_msg` against the input template, renames the fields of
    /// the match and generates the output message from them.
    pub fn transform(&self, in_msg: Fr::Message) -> (r: Option<To::Message>)
        ensures
            r == self.spec_transform(in_msg),
    {
        match self.input.matches(in_msg) {
            Some(matched) => {
                let renamed = self.field_map.rename_all(&matched);
                self.output.generate(renamed)
            },
            None => None,
        }
    }
}

} // verus!
