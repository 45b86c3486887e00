//! The web host's decisions: matching Bevy→JS events with parked
//! `op_next_event` callers, and decoding request ids.

use vstd::prelude::*;
use vstd::string::*;

verus! {

/// Events waiting for a JS `op_next_event` caller, and the callers parked on
/// `op_next_event`. At most one side is ever non-empty: an arriving event
/// resolves a waiter immediately, else it queues; a caller takes a queued
/// event immediately, else it parks.
pub struct Mailbox<E, W> {
    pending: Vec<E>,
    waiters: Vec<W>,
}

impl<E, W> Mailbox<E, W> {
    /// The queued events, oldest first.
    pub closed spec fn pending(&self) -> Seq<E> {
        self.pending@
    }

    /// The parked callers, oldest first.
    pub closed spec fn waiters(&self) -> Seq<W> {
        self.waiters@
    }

    /// At most one side is non-empty.
    pub open spec fn well_formed(&self) -> bool {
        self.pending().len() == 0 || self.waiters().len() == 0
    }

    /// An empty mailbox.
    pub fn new() -> (r: Self)
        ensures
            r.pending().len() == 0,
            r.waiters().len() == 0,
            r.well_formed(),
    {
        Mailbox { pending: Vec::new(), waiters: Vec::new() }
    }

    /// Deliver an event: hand it to the oldest parked caller (returned with
    /// the event, to resolve once the host is released), else queue it.
    pub fn deliver(&mut self, event: E) -> (r: Option<(W, E)>)
        requires
            old(self).well_formed(),
        ensures
            final(self).well_formed(),
            old(self).waiters().len() > 0 ==> r == Some((old(self).waiters()[0], event))
                && final(self).waiters() == old(self).waiters().drop_first() && final(self).pending() == old(self).pending(),
            old(self).waiters().len() == 0 ==> r is None && final(self).pending() == old(self).pending().push(event) && final(self).waiters() == old(self).waiters(),
    {
        if self.waiters.len() > 0 {
            let w = self.waiters.remove(0);
            proof {
                assert(self.waiters@ =~= old(self).waiters().drop_first());
            }
            Some((w, event))
        } else {
            self.pending.push(event);
            None
        }
    }

    /// A caller asks for the next event: take the oldest queued event, else
    /// park the caller (`None`).
    pub fn next_event(&mut self, waiter: W) -> (r: Option<E>)
        requires
            old(self).well_formed(),
        ensures
            final(self).well_formed(),
            old(self).pending().len() > 0 ==> r == Some(old(self).pending()[0]) && final(self).pending() == old(self).pending().drop_first() && final(self).waiters() == old(self).waiters(),
            old(self).pending().len() == 0 ==> r is None && final(self).waiters() == old(self).waiters().push(waiter) && final(self).pending() == old(self).pending(),
    {
        if self.pending.len() > 0 {
            let e = self.pending.remove(0);
            proof {
                assert(self.pending@ =~= old(self).pending().drop_first());
            }
            Some(e)
        } else {
            self.waiters.push(waiter);
            None
        }
    }
}

/// The value of a string of ASCII decimal digits.
pub open spec fn digits_value(b: Seq<u8>) -> nat
    decreases b.len(),
{
    if b.len() == 0 {
        0
    } else {
        digits_value(b.drop_last()) * 10 + (b.last() - 48) as nat
    }
}

/// Every byte is an ASCII decimal digit.
pub open spec fn all_digits(b: Seq<u8>) -> bool {
    forall|i: int| 0 <= i < b.len() ==> 48 <= #[trigger] b[i] <= 57
}

/// Decimal `u64` syntax: an optional `+`, then at least one ASCII digit; the
/// value must fit in a `u64`.
pub open spec fn parse_u64_spec(b: Seq<u8>) -> Option<u64> {
    let d = if b.len() > 0 && b[0] == 43 {
        b.drop_first()
    } else {
        b
    };
    if d.len() > 0 && all_digits(d) && digits_value(d) <= u64::MAX {
        Some(digits_value(d) as u64)
    } else {
        None
    }
}

proof fn lemma_digits_value_monotone(b: Seq<u8>, i: int)
    requires
        0 <= i <= b.len(),
        all_digits(b),
    ensures
        digits_value(b.take(i)) <= digits_value(b),
    decreases b.len(),
{
    if i < b.len() {
        assert(b.drop_last().take(i) =~= b.take(i));
        lemma_digits_value_monotone(b.drop_last(), i);
        assert(digits_value(b.drop_last()) <= digits_value(b)) by (nonlinear_arith)
            requires
                digits_value(b) == digits_value(b.drop_last()) * 10 + (b.last() - 48) as nat,
        ;
    } else {
        assert(b.take(i) =~= b);
    }
}

/// Parse a decimal `u64` from UTF-8 bytes (std's `u64::from_str` syntax).
pub fn parse_u64(b: &[u8]) -> (r: Option<u64>)
    ensures
        r == parse_u64_spec(b@),
{
    let start: usize = if b.len() > 0 && b[0] == 43 {
        1
    } else {
        0
    };
    let ghost d = if b@.len() > 0 && b@[0] == 43 {
        b@.drop_first()
    } else {
        b@
    };
    assert(d =~= b@.subrange(start as int, b@.len() as int));
    if start == b.len() {
        return None;
    }
    let mut acc: u64 = 0;
    let mut i: usize = start;
    while i < b.len()
        invariant
            start <= i <= b@.len(),
            d =~= b@.subrange(start as int, b@.len() as int),
            d == (if b@.len() > 0 && b@[0] == 43 {
                b@.drop_first()
            } else {
                b@
            }),
            d.len() > 0,
            forall|j: int| 0 <= j < i - start ==> 48 <= #[trigger] d[j] <= 57,
            acc == digits_value(d.take(i - start)),
        decreases b@.len() - i,
    {
        let c = b[i];
        if c < 48 || c > 57 {
            assert(!all_digits(d)) by {
                assert(d[i - start] == c);
            }
            return None;
        }
        let ghost k = i - start;
        assert(d.take(k + 1).drop_last() =~= d.take(k));
        assert(d.take(k + 1).last() == c);
        let digit = (c - 48) as u64;
        match acc.checked_mul(10) {
            Some(m) => match m.checked_add(digit) {
                Some(v) => {
                    acc = v;
                },
                None => {
                    proof {
                        assert(digits_value(d.take(k + 1)) > u64::MAX);
                        if all_digits(d) {
                            lemma_digits_value_monotone(d, k + 1);
                        }
                    }
                    return None;
                },
            },
            None => {
                proof {
                    assert(digits_value(d.take(k + 1)) > u64::MAX) by (nonlinear_arith)
                        requires
                            digits_value(d.take(k + 1)) == acc * 10 + (c - 48) as nat,
                            acc * 10 > u64::MAX,
                    ;
                    if all_digits(d) {
                        lemma_digits_value_monotone(d, k + 1);
                    }
                }
                return None;
            },
        }
        i = i + 1;
    }
    assert(d.take(i - start) =~= d);
    Some(acc)
}

/// A request id as `bridge.ts` passes it (a `BigInt` rendered in base 10):
/// its value, or `0` when the rendering is missing or not a `u64`.
pub fn request_id_from_decimal(text: Option<&str>) -> (r: u64)
    ensures
        r == match text {
            Some(t) => match parse_u64_spec(t.spec_bytes()) {
                Some(v) => v,
                None => 0,
            },
            None => 0,
        },
{
    match text {
        Some(t) => match parse_u64(t.as_bytes()) {
            Some(v) => v,
            None => 0,
        },
        None => 0,
    }
}

} // verus!
