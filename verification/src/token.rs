//! Token accounting: per-token, per-address balances, and the transparent
//! transfer that moves an amount from one account to another.

use vstd::prelude::*;
use crate::address::{enc_address, read_address, write_address, Address, AddressV};
use crate::codec::{enc_u64, lemma_starts_with_split, lemma_u64_roundtrip,
    lemma_u64_roundtrip_inverse, read_u64, starts_with, write_u64};

verus! {

/// The balance recorded for `owner`'s holding of `token`: the value of the
/// last entry for that pair, or zero when there is none.
pub open spec fn balance_in(s: Seq<((Address, Address), u64)>, t: AddressV, o: AddressV) -> u64
    decreases s.len(),
{
    if s.len() == 0 {
        0
    } else if s.last().0.0@ == t && s.last().0.1@ == o {
        s.last().1
    } else {
        balance_in(s.drop_last(), t, o)
    }
}

/// Balances of every token, held per (token, owner) pair. An absent account
/// holds zero.
pub struct Balances {
    pub accounts: Vec<((Address, Address), u64)>,
}

impl Balances {
    /// An empty ledger: every account holds zero.
    pub fn new() -> (r: Balances)
        ensures
            forall|t: AddressV, o: AddressV| balance_in(r.accounts@, t, o) == 0,
    {
        Balances { accounts: Vec::new() }
    }

    /// The balance of `owner`'s holding of `token`.
    pub fn balance_of(&self, token: &Address, owner: &Address) -> (r: u64)
        ensures
            r == balance_in(self.accounts@, token@, owner@),
    {
        proof {
            assert(self.accounts@.take(self.accounts@.len() as int) =~= self.accounts@);
        }
        let mut i: usize = self.accounts.len();
        while i > 0
            invariant
                i <= self.accounts@.len(),
                balance_in(self.accounts@.take(i as int), token@, owner@) == balance_in(
                    self.accounts@,
                    token@,
                    owner@,
                ),
            decreases i,
        {
            i = i - 1;
            let entry = &self.accounts[i];
            proof {
                assert(self.accounts@.take(i + 1).last() == self.accounts@[i as int]);
                assert(self.accounts@.take(i + 1).drop_last() =~= self.accounts@.take(i as int));
            }
            if entry.0.0.eq_addr(token) && entry.0.1.eq_addr(owner) {
                return entry.1;
            }
        }
        assert(self.accounts@.take(0) =~= Seq::<((Address, Address), u64)>::empty());
        0
    }

    /// Set one balance, leaving every other account unchanged.
    pub fn set_balance(&mut self, token: &Address, owner: &Address, v: u64)
        ensures
            balance_in(final(self).accounts@, token@, owner@) == v,
            forall|t: AddressV, o: AddressV|
                !(t == token@ && o == owner@) ==> balance_in(final(self).accounts@, t, o)
                    == balance_in(old(self).accounts@, t, o),
    {
        let mut out: Vec<((Address, Address), u64)> = Vec::new();
        let mut i: usize = 0;
        while i < self.accounts.len()
            invariant
                i <= self.accounts@.len(),
                forall|t: AddressV, o: AddressV|
                    !(t == token@ && o == owner@) ==> balance_in(out@, t, o) == balance_in(
                        self.accounts@.take(i as int),
                        t,
                        o,
                    ),
                forall|j: int|
                    0 <= j < out@.len() ==> !(out@[j].0.0@ == token@ && out@[j].0.1@ == owner@),
            decreases self.accounts@.len() - i,
        {
            let entry = &self.accounts[i];
            proof {
                assert(self.accounts@.take(i + 1).last() == self.accounts@[i as int]);
                assert(self.accounts@.take(i + 1).drop_last() =~= self.accounts@.take(i as int));
            }
            if !(entry.0.0.eq_addr(token) && entry.0.1.eq_addr(owner)) {
                let ghost prev = out@;
                let key = (entry.0.0.clone_addr(), entry.0.1.clone_addr());
                let value = entry.1;
                out.push((key, value));
                proof {
                    assert(out@.last().0.0@ == self.accounts@[i as int].0.0@);
                    assert(out@.last().0.1@ == self.accounts@[i as int].0.1@);
                    assert(out@.last().1 == self.accounts@[i as int].1);
                    assert(out@.drop_last() =~= prev);
                    assert forall|t: AddressV, o: AddressV|
                        !(t == token@ && o == owner@) implies balance_in(out@, t, o) == balance_in(
                        self.accounts@.take(i + 1),
                        t,
                        o,
                    ) by {
                        if self.accounts@[i as int].0.0@ == t && self.accounts@[i as int].0.1@
                            == o {
                            assert(balance_in(out@, t, o) == out@.last().1);
                            assert(balance_in(self.accounts@.take(i + 1), t, o) == self.accounts@[
                                i as int].1);
                        } else {
                            assert(balance_in(out@, t, o) == balance_in(prev, t, o));
                            assert(balance_in(self.accounts@.take(i + 1), t, o) == balance_in(
                                self.accounts@.take(i as int),
                                t,
                                o,
                            ));
                        }
                    }
                }
            }
            i = i + 1;
        }
        proof {
            assert(self.accounts@.take(self.accounts@.len() as int) =~= self.accounts@);
        }
        let ghost prev = out@;
        out.push(((token.clone_addr(), owner.clone_addr()), v));
        proof {
            assert(out@.drop_last() =~= prev);
            assert(out@.last().0.0@ == token@ && out@.last().0.1@ == owner@);
            assert(balance_in(out@, token@, owner@) == v);
            assert forall|t: AddressV, o: AddressV|
                !(t == token@ && o == owner@) implies balance_in(out@, t, o) == balance_in(
                old(self).accounts@,
                t,
                o,
            ) by {
                assert(balance_in(out@, t, o) == balance_in(prev, t, o));
            }
        }
        self.accounts = out;
    }

    /// Credit an amount to an account.
    pub fn credit(&mut self, token: &Address, owner: &Address, amount: u64) -> (r: bool)
        ensures
            r ==> balance_in(old(self).accounts@, token@, owner@) + amount <= u64::MAX
                && balance_in(final(self).accounts@, token@, owner@) == balance_in(
                old(self).accounts@,
                token@,
                owner@,
            ) + amount,
            !r ==> balance_in(old(self).accounts@, token@, owner@) + amount > u64::MAX
                && *final(self) == *old(self),
            forall|t: AddressV, o: AddressV|
                !(t == token@ && o == owner@) ==> balance_in(final(self).accounts@, t, o)
                    == balance_in(old(self).accounts@, t, o),
    {
        let cur = self.balance_of(token, owner);
        if amount > u64::MAX - cur {
            return false;
        }
        self.set_balance(token, owner, cur + amount);
        true
    }

    /// Debit an amount from an account; fails when the balance is too small.
    pub fn debit(&mut self, token: &Address, owner: &Address, amount: u64) -> (r: bool)
        ensures
            r == (amount <= balance_in(old(self).accounts@, token@, owner@)),
            r ==> balance_in(final(self).accounts@, token@, owner@) == balance_in(
                old(self).accounts@,
                token@,
                owner@,
            ) - amount,
            !r ==> *final(self) == *old(self),
            forall|t: AddressV, o: AddressV|
                !(t == token@ && o == owner@) ==> balance_in(final(self).accounts@, t, o)
                    == balance_in(old(self).accounts@, t, o),
    {
        let cur = self.balance_of(token, owner);
        if amount > cur {
            return false;
        }
        self.set_balance(token, owner, cur - amount);
        true
    }

    /// Move an amount of `token` between two accounts. Fails, changing
    /// nothing, when the source balance is too small or the target would
    /// overflow.
    pub fn transfer(&mut self, token: &Address, from: &Address, to: &Address, amount: u64) -> (r:
        bool)
        ensures
            r == (amount <= balance_in(old(self).accounts@, token@, from@) && (from@ != to@
                ==> balance_in(old(self).accounts@, token@, to@) + amount <= u64::MAX)),
            !r ==> *final(self) == *old(self),
            (r && from@ != to@) ==> balance_in(final(self).accounts@, token@, from@) == balance_in(
                old(self).accounts@,
                token@,
                from@,
            ) - amount && balance_in(final(self).accounts@, token@, to@) == balance_in(
                old(self).accounts@,
                token@,
                to@,
            ) + amount,
            (r && from@ == to@) ==> balance_in(final(self).accounts@, token@, from@) == balance_in(
                old(self).accounts@,
                token@,
                from@,
            ),
            forall|t: AddressV, o: AddressV|
                !(t == token@ && (o == from@ || o == to@)) ==> balance_in(
                    final(self).accounts@,
                    t,
                    o,
                ) == balance_in(old(self).accounts@, t, o),
    {
        let src = self.balance_of(token, from);
        if amount > src {
            return false;
        }
        if from.eq_addr(to) {
            return true;
        }
        let dst = self.balance_of(token, to);
        if amount > u64::MAX - dst {
            return false;
        }
        self.set_balance(token, from, src - amount);
        self.set_balance(token, to, dst + amount);
        true
    }
}

/// A transparent transfer: move `amount` of `token` from `source` to
/// `target`.
pub struct Transfer {
    pub source: Address,
    pub target: Address,
    pub token: Address,
    pub amount: u64,
}

/// The mathematical value of a transfer.
pub struct TransferV {
    pub source: AddressV,
    pub target: AddressV,
    pub token: AddressV,
    pub amount: u64,
}

impl View for Transfer {
    type V = TransferV;

    open spec fn view(&self) -> TransferV {
        TransferV {
            source: self.source@,
            target: self.target@,
            token: self.token@,
            amount: self.amount,
        }
    }
}

/// Canonical encoding of a transfer.
pub open spec fn enc_transfer(t: TransferV) -> Seq<u8> {
    enc_address(t.source) + enc_address(t.target) + enc_address(t.token) + enc_u64(t.amount)
}

/// Append the canonical encoding of a transfer.
pub fn write_transfer(out: &mut Vec<u8>, t: &Transfer)
    ensures
        final(out)@ == old(out)@ + enc_transfer(t@),
{
    write_address(out, &t.source);
    write_address(out, &t.target);
    write_address(out, &t.token);
    write_u64(out, t.amount);
    assert(out@ =~= old(out)@ + enc_transfer(t@));
}

/// The canonical encoding of a transfer, as bytes.
pub fn encode_transfer(t: &Transfer) -> (r: Vec<u8>)
    ensures
        r@ == enc_transfer(t@),
{
    let mut out: Vec<u8> = Vec::new();
    write_transfer(&mut out, t);
    assert(out@ =~= enc_transfer(t@));
    out
}

/// Splitting an encoded transfer into its four fields.
proof fn lemma_transfer_starts(bytes: Seq<u8>, start: int, v: TransferV)
    requires
        starts_with(bytes, start, enc_transfer(v)),
    ensures
        starts_with(bytes, start, enc_address(v.source)),
        starts_with(bytes, start + enc_address(v.source).len(), enc_address(v.target)),
        starts_with(
            bytes,
            start + enc_address(v.source).len() + enc_address(v.target).len(),
            enc_address(v.token),
        ),
        starts_with(
            bytes,
            start + enc_address(v.source).len() + enc_address(v.target).len() + enc_address(
                v.token,
            ).len(),
            enc_u64(v.amount),
        ),
{
    let p1 = enc_address(v.source);
    let p2 = enc_address(v.target);
    let p3 = enc_address(v.token);
    let p4 = enc_u64(v.amount);
    assert(enc_transfer(v) =~= (p1 + p2 + p3) + p4);
    lemma_starts_with_split(bytes, start, p1 + p2 + p3, p4);
    assert(p1 + p2 + p3 =~= (p1 + p2) + p3);
    lemma_starts_with_split(bytes, start, p1 + p2, p3);
    lemma_starts_with_split(bytes, start, p1, p2);
}

/// Decode a transfer from exactly the given bytes.
#[verifier::rlimit(100)]
#[verifier::spinoff_prover]
pub fn decode_transfer(bytes: &Vec<u8>) -> (r: Option<Transfer>)
    ensures
        r matches Some(t) ==> bytes@ == enc_transfer(t@),
        forall|v: TransferV| bytes@ == enc_transfer(v) ==> (r matches Some(t) && t@ == v),
{
    let mut pos: usize = 0;
    proof {
        assert forall|v: TransferV| bytes@ == enc_transfer(v) implies starts_with(
            bytes@,
            0,
            enc_transfer(v),
        ) by {
            assert(bytes@.subrange(0, enc_transfer(v).len() as int) =~= bytes@);
        }
        assert forall|v: TransferV| starts_with(bytes@, 0, enc_transfer(v)) implies {
            &&& starts_with(bytes@, 0, enc_address(v.source))
            &&& starts_with(bytes@, enc_address(v.source).len() as int, enc_address(v.target))
            &&& starts_with(
                bytes@,
                (enc_address(v.source).len() + enc_address(v.target).len()) as int,
                enc_address(v.token),
            )
            &&& starts_with(
                bytes@,
                (enc_address(v.source).len() + enc_address(v.target).len() + enc_address(
                    v.token,
                ).len()) as int,
                enc_u64(v.amount),
            )
        } by {
            lemma_transfer_starts(bytes@, 0, v);
        }
    }
    let source = match read_address(bytes, &mut pos) {
        None => {
            return None;
        },
        Some(a) => a,
    };
    let target = match read_address(bytes, &mut pos) {
        None => {
            proof {
                assert forall|v: TransferV| bytes@ != enc_transfer(v) by {
                    if bytes@ == enc_transfer(v) {
                        assert(enc_address(v.source).len() == enc_address(source@).len());
                    }
                }
            }
            return None;
        },
        Some(a) => a,
    };
    let token = match read_address(bytes, &mut pos) {
        None => {
            proof {
                assert forall|v: TransferV| bytes@ != enc_transfer(v) by {
                    if bytes@ == enc_transfer(v) {
                        assert(enc_address(v.source).len() == enc_address(source@).len());
                        assert(enc_address(v.target).len() == enc_address(target@).len());
                    }
                }
            }
            return None;
        },
        Some(a) => a,
    };
    let i3 = pos;
    let amount = match read_u64(bytes, &mut pos) {
        None => {
            proof {
                assert forall|v: TransferV| bytes@ != enc_transfer(v) by {
                    if bytes@ == enc_transfer(v) {
                        assert(enc_address(v.source).len() == enc_address(source@).len());
                        assert(enc_address(v.target).len() == enc_address(target@).len());
                        assert(enc_address(v.token).len() == enc_address(token@).len());
                    }
                }
            }
            return None;
        },
        Some(x) => x,
    };
    if pos != bytes.len() {
        proof {
            assert forall|v: TransferV| bytes@ != enc_transfer(v) by {
                if bytes@ == enc_transfer(v) {
                    assert(enc_address(v.source).len() == enc_address(source@).len());
                    assert(enc_address(v.target).len() == enc_address(target@).len());
                    assert(enc_address(v.token).len() == enc_address(token@).len());
                }
            }
        }
        return None;
    }
    let t = Transfer { source, target, token, amount };
    proof {
        lemma_u64_roundtrip_inverse(bytes@, i3 as int, amount);
        assert(bytes@.subrange(0, pos as int) =~= bytes@);
        assert(bytes@ =~= enc_transfer(t@));
        assert forall|v: TransferV| bytes@ == enc_transfer(v) implies t@ == v by {
            assert(enc_address(v.source).len() == enc_address(source@).len());
            assert(enc_address(v.target).len() == enc_address(target@).len());
            assert(enc_address(v.token).len() == enc_address(token@).len());
            lemma_u64_roundtrip(v.amount, bytes@, i3 as int);
        }
    }
    Some(t)
}

} // verus!
