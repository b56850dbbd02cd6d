//! Parsed identifiers: a single value or a range, the carry applied to them,
//! and the identifiers that they stand for.

use crate::digits::{checked_fix_len, fix_len_spec};
use vstd::prelude::*;

verus! {

/// One parsed token: a single identifier, or the two bounds of a range.
#[derive(Clone, Copy, Debug, PartialEq, Eq, Structural)]
pub enum CliProg {
    Single(u32),
    Range(u32, u32),
}

impl CliProg {
    /// Whether fixing against `prev` stays within 32 bits: with no carry it
    /// always does; a range's end is fixed against its own fixed start.
    pub open spec fn fix_fits(self, prev: Option<u32>) -> bool {
        match (self, prev) {
            (_, None) => true,
            (CliProg::Single(n), Some(p)) => fix_len_spec(n as nat, p as nat) <= u32::MAX,
            (CliProg::Range(a, b), Some(p)) => {
                &&& fix_len_spec(a as nat, p as nat) <= u32::MAX
                &&& fix_len_spec(b as nat, fix_len_spec(a as nat, p as nat)) <= u32::MAX
            },
        }
    }

    /// The identifier fixed against the carry `prev`. Without a carry it is
    /// unchanged. A single value is fixed against the carry; a range's start
    /// is fixed against the carry, and its end against the fixed start.
    pub open spec fn fixed(self, prev: Option<u32>) -> CliProg {
        match (self, prev) {
            (_, None) => self,
            (CliProg::Single(n), Some(p)) => CliProg::Single(
                fix_len_spec(n as nat, p as nat) as u32,
            ),
            (CliProg::Range(a, b), Some(p)) => CliProg::Range(
                fix_len_spec(a as nat, p as nat) as u32,
                fix_len_spec(b as nat, fix_len_spec(a as nat, p as nat)) as u32,
            ),
        }
    }

    /// The identifiers that this stands for, in the order they are emitted:
    /// the value itself, or every value from the start of the range to its
    /// end, both included. A range whose end lies below its start is empty.
    pub open spec fn expansion(self) -> Seq<u32> {
        match self {
            CliProg::Single(v) => seq![v],
            CliProg::Range(a, b) => if a <= b {
                Seq::new((b - a + 1) as nat, |k: int| (a + k) as u32)
            } else {
                Seq::empty()
            },
        }
    }

    /// The carry that this leaves behind: the last identifier emitted, and
    /// none where nothing was emitted.
    pub open spec fn last_emitted(self) -> Option<u32> {
        match self {
            CliProg::Single(v) => Some(v),
            CliProg::Range(a, b) => if a <= b {
                Some(b)
            } else {
                None
            },
        }
    }

    /// The last identifier of the expansion is the carry left behind.
    pub proof fn lemma_last_of_expansion(self)
        ensures
            self.last_emitted() is Some <==> self.expansion().len() > 0,
            self.last_emitted() is Some ==> self.expansion().last() == self.last_emitted()->Some_0,
    {
    }

    /// A range expands to one identifier per value between its bounds,
    /// ascending by one, from the start to the end.
    pub proof fn lemma_range_expansion(a: u32, b: u32)
        requires
            a <= b,
        ensures
            CliProg::Range(a, b).expansion().len() == b - a + 1,
            CliProg::Range(a, b).expansion().first() == a,
            CliProg::Range(a, b).expansion().last() == b,
            forall|k: int|
                0 <= k < b - a ==> #[trigger] CliProg::Range(a, b).expansion()[k + 1]
                    == CliProg::Range(a, b).expansion()[k] + 1,
    {
    }

    /// This identifier fixed against the carry, or `None` where a fixed
    /// value does not fit in 32 bits.
    pub fn checked_fix_len(&self, prev: Option<u32>) -> (fixed: Option<CliProg>)
        ensures
            self.fix_fits(prev) ==> fixed == Some(self.fixed(prev)),
            !self.fix_fits(prev) ==> fixed.is_none(),
    {
        match (*self, prev) {
            (_, None) => Some(*self),
            (CliProg::Single(n), Some(p)) => match checked_fix_len(n, p) {
                Some(m) => Some(CliProg::Single(m)),
                None => None,
            },
            (CliProg::Range(a, b), Some(p)) => match checked_fix_len(a, p) {
                Some(new_a) => match checked_fix_len(b, new_a) {
                    Some(new_b) => Some(CliProg::Range(new_a, new_b)),
                    None => None,
                },
                None => None,
            },
        }
    }

    /// This identifier fixed against the carry `prev`.
    pub fn fix_len(&self, prev: Option<u32>) -> (fixed: CliProg)
        requires
            self.fix_fits(prev),
        ensures
            fixed == self.fixed(prev),
            prev.is_none() ==> fixed == *self,
    {
        match self.checked_fix_len(prev) {
            Some(fixed) => fixed,
            // Not reached: the fixed values fit.
            None => *self,
        }
    }

    /// The identifiers that this stands for, in order.
    pub fn into_iter(self) -> (items: Vec<u32>)
        ensures
            items@ == self.expansion(),
    {
        let mut items: Vec<u32> = Vec::new();
        match self {
            CliProg::Single(v) => {
                items.push(v);
                assert(items@ =~= self.expansion());
            },
            CliProg::Range(a, b) => {
                if a <= b {
                    let mut i: u32 = a;
                    while i < b
                        invariant
                            a <= i <= b,
                            items@ == Seq::new((i - a) as nat, |k: int| (a + k) as u32),
                        decreases b - i,
                    {
                        items.push(i);
                        i = i + 1;
                        assert(items@ =~= Seq::new((i - a) as nat, |k: int| (a + k) as u32));
                    }
                    items.push(b);
                    assert(items@ =~= self.expansion());
                }
            },
        }
        items
    }

    /// The carry that this leaves behind for the next token.
    pub fn last(&self) -> (carry: Option<u32>)
        ensures
            carry == self.last_emitted(),
    {
        match *self {
            CliProg::Single(v) => Some(v),
            CliProg::Range(a, b) => if a <= b {
                Some(b)
            } else {
                None
            },
        }
    }
}

/// One step of a run: the identifiers that `prog` emits under the carry
/// `carry`, and the carry that it hands to the next token. `None` where a
/// fixed value does not fit in 32 bits.
pub fn step(prog: &CliProg, carry: Option<u32>) -> (out: Option<(Vec<u32>, Option<u32>)>)
    ensures
        out is Some <==> prog.fix_fits(carry),
        out is Some ==> out->Some_0.0@ == prog.fixed(carry).expansion(),
        out is Some ==> out->Some_0.1 == prog.fixed(carry).last_emitted(),
{
    match prog.checked_fix_len(carry) {
        None => None,
        Some(fixed) => Some((fixed.into_iter(), fixed.last())),
    }
}

/// What a run over `progs` emits, given the carry before the first of them
/// and what was emitted so far: each token is fixed against the carry, its
/// expansion is emitted, and its last identifier is the carry of the next.
/// `None` where a fixed value does not fit in 32 bits.
pub open spec fn run_from(progs: Seq<CliProg>, carry: Option<u32>, emitted: Seq<u32>) -> Option<
    Seq<u32>,
>
    decreases progs.len(),
{
    if progs.len() == 0 {
        Some(emitted)
    } else if !progs[0].fix_fits(carry) {
        None
    } else {
        let fixed = progs[0].fixed(carry);
        run_from(progs.drop_first(), fixed.last_emitted(), emitted + fixed.expansion())
    }
}

/// What the tokens of one invocation emit, starting without a carry.
pub open spec fn resolved(progs: Seq<CliProg>) -> Option<Seq<u32>> {
    run_from(progs, None, Seq::empty())
}

/// The first token of an invocation meets no carry: it passes unchanged.
pub proof fn lemma_first_token_unchanged(first: CliProg)
    ensures
        resolved(seq![first]) == Some(first.expansion()),
{
    let progs = seq![first];
    assert(progs.drop_first() =~= Seq::<CliProg>::empty());
    assert(Seq::<u32>::empty() + first.expansion() =~= first.expansion());
    reveal_with_fuel(run_from, 3);
}

/// The second token is fixed against the last identifier of the first, and
/// against nothing where the first emitted nothing.
pub proof fn lemma_second_token_carries(first: CliProg, second: CliProg)
    ensures
        second.fix_fits(first.last_emitted()) ==> resolved(seq![first, second]) == Some(
            first.expansion() + second.fixed(first.last_emitted()).expansion(),
        ),
        !second.fix_fits(first.last_emitted()) ==> resolved(seq![first, second]).is_none(),
{
    let progs = seq![first, second];
    assert(progs.drop_first() =~= seq![second]);
    assert(progs.drop_first().drop_first() =~= Seq::<CliProg>::empty());
    assert(Seq::<u32>::empty() + first.expansion() =~= first.expansion());
    reveal_with_fuel(run_from, 4);
}

/// Every identifier that the tokens of one invocation stand for, in order,
/// with the carry handed from each token to the next. `None` where a fixed
/// value does not fit in 32 bits.
pub fn resolve_all(progs: &Vec<CliProg>) -> (out: Option<Vec<u32>>)
    ensures
        out is Some <==> resolved(progs@) is Some,
        out is Some ==> out->Some_0@ == resolved(progs@)->Some_0,
{
    let mut emitted: Vec<u32> = Vec::new();
    let mut carry: Option<u32> = None;
    let mut i: usize = 0;
    assert(progs@.skip(0) =~= progs@);
    while i < progs.len()
        invariant
            i <= progs.len(),
            run_from(progs@.skip(i as int), carry, emitted@) == resolved(progs@),
        decreases progs.len() - i,
    {
        let ghost rest = progs@.skip(i as int);
        assert(rest[0] == progs@[i as int]);
        assert(rest.drop_first() =~= progs@.skip(i + 1));
        match step(&progs[i], carry) {
            None => {
                return None;
            },
            Some((mut items, next)) => {
                emitted.append(&mut items);
                carry = next;
            },
        }
        i = i + 1;
    }
    assert(progs@.skip(i as int).len() == 0);
    Some(emitted)
}

} // verus!
