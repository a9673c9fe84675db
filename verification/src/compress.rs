use vstd::prelude::*;
use crate::message::all_lower;

verus! {

/// Decimal ASCII digits of `n`, most significant first, no leading zeros.
pub open spec fn digits_spec(n: nat) -> Seq<u8>
    decreases n,
{
    if n < 10 {
        seq![(48 + n) as u8]
    } else {
        digits_spec(n / 10).push((48 + n % 10) as u8)
    }
}

/// Encoding of one run: the byte itself for a run of 1, the byte twice for a
/// run of 2 (a digit prefix would not shrink it), digit prefix plus the byte
/// once for runs of 3 or more.
pub open spec fn run_code(count: nat, b: u8) -> Seq<u8> {
    if count == 1 {
        seq![b]
    } else if count == 2 {
        seq![b, b]
    } else {
        digits_spec(count).push(b)
    }
}

/// Length of the first run: the maximal prefix of equal bytes.
pub open spec fn run_len(s: Seq<u8>) -> nat
    decreases s.len(),
{
    if s.len() == 0 {
        0
    } else if s.len() == 1 {
        1
    } else if s[0] == s[1] {
        (1 + run_len(s.drop_first())) as nat
    } else {
        1
    }
}

proof fn lemma_run_len_bounds(s: Seq<u8>)
    requires
        s.len() > 0,
    ensures
        1 <= run_len(s) <= s.len(),
        forall|i: int| 0 <= i < run_len(s) ==> #[trigger] s[i] == s[0],
        run_len(s) < s.len() ==> s[run_len(s) as int] != s[0],
    decreases s.len(),
{
    if s.len() > 1 && s[0] == s[1] {
        let t = s.drop_first();
        lemma_run_len_bounds(t);
        assert forall|i: int| 0 <= i < run_len(s) implies #[trigger] s[i] == s[0] by {
            if i > 0 {
                assert(t[i - 1] == t[0]);
            }
        }
        if run_len(s) < s.len() {
            assert(t[run_len(t) as int] != t[0]);
        }
    }
}

/// The run-length encoding of a byte sequence: each maximal run of equal
/// bytes, encoded in turn.
pub open spec fn rle_spec(s: Seq<u8>) -> Seq<u8>
    decreases s.len(),
    via rle_spec_dec
{
    if s.len() == 0 {
        Seq::empty()
    } else {
        run_code(run_len(s), s[0]) + rle_spec(s.skip(run_len(s) as int))
    }
}

#[via_fn]
proof fn rle_spec_dec(s: Seq<u8>) {
    if s.len() > 0 {
        lemma_run_len_bounds(s);
    }
}

proof fn lemma_run_len_of_constant(s: Seq<u8>)
    requires
        s.len() > 0,
        forall|i: int| 0 <= i < s.len() ==> #[trigger] s[i] == s[0],
    ensures
        run_len(s) == s.len(),
    decreases s.len(),
{
    if s.len() > 1 {
        let t = s.drop_first();
        assert forall|i: int| 0 <= i < t.len() implies #[trigger] t[i] == t[0] by {
            assert(t[i] == s[i + 1]);
        }
        lemma_run_len_of_constant(t);
    }
}

proof fn lemma_rle_of_single_run(s: Seq<u8>)
    requires
        s.len() > 0,
        forall|i: int| 0 <= i < s.len() ==> #[trigger] s[i] == s[0],
    ensures
        rle_spec(s) == run_code(s.len() as nat, s[0]),
{
    lemma_run_len_of_constant(s);
    assert(s.skip(s.len() as int) =~= Seq::<u8>::empty());
    assert(rle_spec(Seq::<u8>::empty()) == Seq::<u8>::empty());
    assert(rle_spec(s) == run_code(s.len() as nat, s[0]) + Seq::<u8>::empty());
    assert(run_code(s.len() as nat, s[0]) + Seq::<u8>::empty() =~= run_code(
        s.len() as nat,
        s[0],
    ));
}

proof fn lemma_run_len_concat(u: Seq<u8>, v: Seq<u8>)
    requires
        u.len() > 0,
        v.len() > 0,
        u.last() != v[0],
    ensures
        run_len(u + v) == run_len(u),
    decreases u.len(),
{
    let w = u + v;
    if u.len() == 1 {
        assert(w[0] == u[0] && w[1] == v[0]);
        assert(w[0] != w[1]);
    } else if u[0] == u[1] {
        assert(w[0] == u[0] && w[1] == u[1]);
        assert(w.drop_first() =~= u.drop_first() + v);
        assert(u.drop_first().last() == u.last());
        lemma_run_len_concat(u.drop_first(), v);
    } else {
        assert(w[0] == u[0] && w[1] == u[1]);
    }
}

proof fn lemma_rle_concat(u: Seq<u8>, v: Seq<u8>)
    requires
        u.len() == 0 || v.len() == 0 || u.last() != v[0],
    ensures
        rle_spec(u + v) == rle_spec(u) + rle_spec(v),
    decreases u.len(),
{
    if u.len() == 0 {
        assert(u + v =~= v);
        assert(rle_spec(u) + rle_spec(v) =~= rle_spec(v));
    } else if v.len() == 0 {
        assert(u + v =~= u);
        assert(rle_spec(u) + rle_spec(v) =~= rle_spec(u));
    } else {
        let r = run_len(u);
        lemma_run_len_bounds(u);
        lemma_run_len_concat(u, v);
        let w = u + v;
        assert(w[0] == u[0]);
        assert(w.skip(r as int) =~= u.skip(r as int) + v);
        if r < u.len() {
            assert(u.skip(r as int).last() == u.last());
        }
        lemma_rle_concat(u.skip(r as int), v);
        assert(rle_spec(w) == run_code(r, u[0]) + (rle_spec(u.skip(r as int)) + rle_spec(v)));
        assert(run_code(r, u[0]) + (rle_spec(u.skip(r as int)) + rle_spec(v)) =~= (run_code(
            r,
            u[0],
        ) + rle_spec(u.skip(r as int))) + rle_spec(v));
    }
}

/// Appending one whole run to a prefix extends its encoding by that run's code.
proof fn lemma_rle_append_run(s: Seq<u8>, m: int, e: int)
    requires
        0 <= m < e <= s.len(),
        forall|k: int| m <= k < e ==> #[trigger] s[k] == s[m],
        m > 0 ==> s[m - 1] != s[m],
    ensures
        rle_spec(s.take(e)) == rle_spec(s.take(m)) + run_code((e - m) as nat, s[m]),
{
    let u = s.take(m);
    let v = s.subrange(m, e);
    assert(s.take(e) =~= u + v);
    assert(forall|i: int| 0 <= i < v.len() ==> #[trigger] v[i] == v[0]);
    if m > 0 {
        assert(u.last() == s[m - 1]);
    }
    lemma_rle_concat(u, v);
    lemma_rle_of_single_run(v);
}

/// The count of decimal digits of `n` is at most `n - 1` once `n` is 2 or more.
proof fn lemma_digits_len(n: nat)
    requires
        n >= 2,
    ensures
        digits_spec(n).len() <= n - 1,
    decreases n,
{
    if n >= 10 {
        let q = n / 10;
        assert(10 * q + n % 10 == n) by {
            vstd::arithmetic::div_mod::lemma_fundamental_div_mod(n as int, 10);
        }
        assert(q >= 1);
        if q >= 2 {
            lemma_digits_len(q);
        }
    }
}

proof fn lemma_run_code_len(count: nat, b: u8)
    requires
        count >= 1,
    ensures
        1 <= run_code(count, b).len() <= count,
{
    if count >= 3 {
        lemma_digits_len(count);
    }
}

/// Run-length encoding never produces more bytes than it consumes.
pub proof fn lemma_compression_never_expands(s: Seq<u8>)
    ensures
        rle_spec(s).len() <= s.len(),
    decreases s.len(),
{
    if s.len() > 0 {
        let r = run_len(s);
        lemma_run_len_bounds(s);
        lemma_run_code_len(r, s[0]);
        lemma_compression_never_expands(s.skip(r as int));
    }
}

/// Run-length encoding of a non-empty input is never empty.
pub proof fn lemma_compression_nonempty(s: Seq<u8>)
    requires
        s.len() > 0,
    ensures
        rle_spec(s).len() >= 1,
{
    lemma_run_len_bounds(s);
    lemma_run_code_len(run_len(s), s[0]);
}

/// True of ASCII decimal digit bytes.
pub open spec fn is_ascii_digit(b: u8) -> bool {
    48 <= b <= 57
}

/// Count of leading digit bytes of a sequence.
pub open spec fn digit_prefix_len(s: Seq<u8>) -> nat
    decreases s.len(),
{
    if s.len() == 0 {
        0
    } else if is_ascii_digit(s[0]) {
        (1 + digit_prefix_len(s.drop_first())) as nat
    } else {
        0
    }
}

/// The number named by a sequence of digit bytes, most significant first.
pub open spec fn digits_val(s: Seq<u8>) -> int
    decreases s.len(),
{
    if s.len() == 0 {
        0
    } else {
        digits_val(s.drop_last()) * 10 + (s.last() - 48)
    }
}

/// The decoder that matches the encoding: a digit prefix names the length of
/// the run of the byte that follows it; a bare byte stands for itself.
pub open spec fn rld_spec(s: Seq<u8>) -> Seq<u8>
    decreases s.len(),
{
    if s.len() == 0 {
        Seq::empty()
    } else {
        let d = digit_prefix_len(s);
        if d == 0 {
            seq![s[0]] + rld_spec(s.drop_first())
        } else if d < s.len() {
            Seq::new(digits_val(s.take(d as int)) as nat, |i: int| s[d as int]) + rld_spec(
                s.skip(d as int + 1),
            )
        } else {
            Seq::empty()
        }
    }
}

proof fn lemma_dpl_concat(u: Seq<u8>, v: Seq<u8>)
    requires
        forall|i: int| 0 <= i < u.len() ==> is_ascii_digit(#[trigger] u[i]),
        v.len() > 0,
        !is_ascii_digit(v[0]),
    ensures
        digit_prefix_len(u + v) == u.len(),
    decreases u.len(),
{
    if u.len() == 0 {
        assert(u + v =~= v);
    } else {
        assert((u + v)[0] == u[0]);
        assert((u + v).drop_first() =~= u.drop_first() + v);
        lemma_dpl_concat(u.drop_first(), v);
    }
}

proof fn lemma_digits_spec_all_digits(n: nat)
    ensures
        forall|i: int|
            0 <= i < digits_spec(n).len() ==> is_ascii_digit(#[trigger] digits_spec(n)[i]),
    decreases n,
{
    if n >= 10 {
        lemma_digits_spec_all_digits(n / 10);
        assert forall|i: int|
            0 <= i < digits_spec(n).len() implies is_ascii_digit(
            #[trigger] digits_spec(n)[i],
        ) by {
            if i < digits_spec(n / 10).len() {
                assert(digits_spec(n)[i] == digits_spec(n / 10)[i]);
            }
        }
    }
}

/// Reading back the decimal digits of `n` yields `n`.
proof fn lemma_digits_val_inverse(n: nat)
    ensures
        digits_val(digits_spec(n)) == n,
    decreases n,
{
    if n < 10 {
        let s = digits_spec(n);
        assert(s.drop_last() =~= Seq::<u8>::empty());
        assert(digits_val(Seq::<u8>::empty()) == 0);
        assert(s.last() == 48 + n);
        assert(digits_val(s) == digits_val(s.drop_last()) * 10 + (s.last() - 48));
    } else {
        lemma_digits_val_inverse(n / 10);
        let s = digits_spec(n);
        assert(s.drop_last() =~= digits_spec(n / 10));
        assert(s.last() == 48 + n % 10);
        assert(10 * (n as int / 10) + n as int % 10 == n) by {
            vstd::arithmetic::div_mod::lemma_fundamental_div_mod(n as int, 10);
        }
    }
}

/// The structural round-trip law: over payloads of lowercase letters the
/// digit prefixes of the encoding can never collide with the data bytes, so
/// the matching decoder recovers the input exactly.
pub proof fn lemma_compression_round_trip(s: Seq<u8>)
    requires
        all_lower(s),
    ensures
        rld_spec(rle_spec(s)) == s,
    decreases s.len(),
{
    if s.len() == 0 {
        assert(rle_spec(s) =~= Seq::<u8>::empty());
        assert(rld_spec(rle_spec(s)) =~= s);
    } else {
        let r = run_len(s);
        lemma_run_len_bounds(s);
        let c = s[0];
        assert(!is_ascii_digit(c));
        let tail = s.skip(r as int);
        assert(all_lower(tail)) by {
            assert forall|i: int| 0 <= i < tail.len() implies crate::message::is_lower(
                tail[i],
            ) by {
                assert(tail[i] == s[i + r]);
            }
        }
        lemma_compression_round_trip(tail);
        let rest = rle_spec(tail);
        let w = rle_spec(s);
        if r == 1 {
            assert(w == seq![c] + rest);
            assert(w[0] == c);
            assert(digit_prefix_len(w) == 0);
            assert(w.drop_first() =~= rest);
            assert(rld_spec(w) == seq![c] + rld_spec(rest));
            assert(seq![c] + tail =~= s);
        } else if r == 2 {
            assert(w == seq![c, c] + rest);
            assert(w[0] == c);
            assert(digit_prefix_len(w) == 0);
            let w2 = seq![c] + rest;
            assert(w.drop_first() =~= w2);
            assert(w2[0] == c);
            assert(digit_prefix_len(w2) == 0);
            assert(w2.drop_first() =~= rest);
            assert(rld_spec(w2) == seq![c] + rld_spec(rest));
            assert(rld_spec(w) == seq![c] + (seq![c] + tail));
            assert(seq![c] + (seq![c] + tail) =~= s);
        } else {
            let ds = digits_spec(r);
            assert(w == ds.push(c) + rest);
            assert(ds.push(c) + rest =~= ds + (seq![c] + rest));
            lemma_digits_spec_all_digits(r);
            lemma_dpl_concat(ds, seq![c] + rest);
            let d = digit_prefix_len(w);
            assert(d == ds.len());
            assert(w.take(d as int) =~= ds);
            lemma_digits_val_inverse(r);
            assert(w[d as int] == c);
            assert(d < w.len());
            assert(w.skip(d as int + 1) =~= rest);
            assert(Seq::new(digits_val(w.take(d as int)) as nat, |i: int| w[d as int]) =~= Seq::new(
                r,
                |i: int| c,
            ));
            assert(rld_spec(w) == Seq::new(r, |i: int| c) + rld_spec(rest));
            assert(Seq::new(r, |i: int| c) + tail =~= s);
        }
    }
}

/// Writes the decimal digits of `n` into `tx` starting at `pos`, returning
/// the position just past the last digit written.
fn write_digits(n: usize, tx: &mut Vec<u8>, pos: usize) -> (end: usize)
    requires
        pos + digits_spec(n as nat).len() <= old(tx)@.len(),
    ensures
        end == pos + digits_spec(n as nat).len(),
        final(tx)@.len() == old(tx)@.len(),
        final(tx)@.subrange(pos as int, end as int) == digits_spec(n as nat),
        forall|k: int| 0 <= k < pos ==> final(tx)@[k] == old(tx)@[k],
        forall|k: int| end <= k < old(tx)@.len() ==> final(tx)@[k] == old(tx)@[k],
    decreases n,
{
    // the executable length read ties the buffer's length to the machine bound
    let _capacity = tx.len();
    if n < 10 {
        proof {
            assert(digits_spec(n as nat).len() == 1);
        }
        tx[pos] = 48 + (n as u8);
        proof {
            assert(tx@.subrange(pos as int, pos + 1) =~= digits_spec(n as nat));
        }
        pos + 1
    } else {
        proof {
            assert(digits_spec(n as nat).len() == digits_spec((n / 10) as nat).len() + 1);
        }
        let end1 = write_digits(n / 10, tx, pos);
        let d: u8 = (n % 10) as u8;
        tx[end1] = 48 + d;
        proof {
            assert(tx@.subrange(pos as int, end1 + 1) =~= digits_spec((n / 10) as nat).push(
                (48 + n % 10) as u8,
            ));
        }
        end1 + 1
    }
}

/// A simplified prefix encoding compression scheme. Replace all consecutively
/// repeated characters in the given string by a prefix denoting the number of
/// characters replaced followed by the character itself.
///
/// Some examples:
/// a => a
/// aa => aa
/// aaa => 3a
/// aaaaabbb => 5a3b
/// aaaaabbbbbbaaabb => 5a6b3abb
/// abcdefg => abcdefg
/// aaaccddddhhhhi => 3acc4d4hi
///
/// Rejects an empty input and an input longer than the destination; in every
/// other case writes the encoding over the front of `tx` and returns its
/// length. The payload character class must be validated by the caller.
#[verifier::rlimit(60)]
pub fn compress_message(rx: &[u8], tx: &mut Vec<u8>) -> (r: Option<usize>)
    ensures
        r is Some <==> (rx@.len() > 0 && rx@.len() <= old(tx)@.len()),
        r is None ==> *final(tx) == *old(tx),
        r is Some ==> {
            let n = r.unwrap();
            &&& n == rle_spec(rx@).len()
            &&& n <= rx@.len()
            &&& final(tx)@.len() == old(tx)@.len()
            &&& final(tx)@.take(n as int) == rle_spec(rx@)
            &&& forall|k: int| n <= k < old(tx)@.len() ==> final(tx)@[k] == old(tx)@[k]
        },
{
    let len = rx.len();
    let mut count: usize = 1;
    let mut compress: usize = 0;
    if len == 0 || (rx.len() > tx.len()) {
        return None;
    }
    let ghost mut run_start: int = 0;
    let mut i: usize = 0;
    while i < len
        invariant
            0 < len == rx@.len() <= tx@.len(),
            tx@.len() == old(tx)@.len(),
            0 <= run_start <= i <= len,
            count == i - run_start + 1,
            i == len ==> run_start == len,
            forall|k: int| run_start <= k <= i && k < len ==> #[trigger] rx@[k] == rx@[run_start],
            run_start < len && run_start > 0 ==> rx@[run_start - 1] != rx@[run_start],
            compress <= run_start,
            compress == rle_spec(rx@.take(run_start)).len(),
            tx@.take(compress as int) == rle_spec(rx@.take(run_start)),
            forall|k: int| compress <= k < tx@.len() ==> tx@[k] == old(tx)@[k],
        decreases len - i,
    {
        if i == len - 1 || rx[i] != rx[i + 1] {
            proof {
                assert(rx@[i as int] == rx@[run_start]);
                lemma_rle_append_run(rx@, run_start, i + 1);
                lemma_run_code_len((i + 1 - run_start) as nat, rx@[run_start]);
                lemma_compression_never_expands(rx@.take(run_start));
            }
            let ghost tx_entry = tx@;
            let ghost code = run_code((i + 1 - run_start) as nat, rx@[run_start]);
            if count == 2 {
                tx[compress] = rx[i];
                compress += 1;
            }
            if count > 2 {
                proof {
                    lemma_digits_len(count as nat);
                }
                compress = write_digits(count, tx, compress);
            }
            tx[compress] = rx[i];
            compress += 1;
            proof {
                assert(tx@.take(compress as int) =~= rle_spec(rx@.take(run_start)) + code);
                assert(tx@.take(compress as int) == rle_spec(rx@.take(i + 1)));
                run_start = i + 1;
            }
            count = 0;
        }
        count += 1;
        i += 1;
    }
    proof {
        assert(rx@.take(len as int) =~= rx@);
    }
    Some(compress)
}

} // verus!
