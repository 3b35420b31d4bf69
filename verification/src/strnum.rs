//! Decimal numerals and lexicographic order on strings.
//!
//! The counter engine stores its value in an external key-value service as a
//! decimal string, and recovers the store's current value from the text of a
//! failed compare-and-swap by taking the first maximal run of digits. The
//! broadcast engine orders node ids lexicographically to build its tree.
//! Everything here is executable and verified against the spec functions
//! below; nothing is trusted.

use vstd::prelude::*;
use vstd::string::StrSliceExecFns;
use vstd::string::StringExecFns;

verus! {

/// Is `c` one of the ten decimal digits?
pub open spec fn is_digit(c: char) -> bool {
    48 <= (c as u32) <= 57
}

/// The numeric value of a digit character.
pub open spec fn digit_val(c: char) -> nat {
    ((c as u32) - 48) as nat
}

/// The digit character for a value below ten.
pub open spec fn digit_char(d: nat) -> char {
    if d == 0 { '0' }
    else if d == 1 { '1' }
    else if d == 2 { '2' }
    else if d == 3 { '3' }
    else if d == 4 { '4' }
    else if d == 5 { '5' }
    else if d == 6 { '6' }
    else if d == 7 { '7' }
    else if d == 8 { '8' }
    else { '9' }
}

/// Does `s` consist of digits only?
pub open spec fn all_digits(s: Seq<char>) -> bool {
    forall|i: int| 0 <= i < s.len() ==> is_digit(#[trigger] s[i])
}

/// The number a digit string denotes, most significant digit first.
pub open spec fn str_to_num(s: Seq<char>) -> nat
    decreases s.len(),
{
    if s.len() == 0 {
        0
    } else {
        str_to_num(s.drop_last()) * 10 + digit_val(s.last())
    }
}

/// The canonical decimal numeral of `n`: no sign, no leading zeros
/// (except for the numeral of zero itself).
pub open spec fn dec_str(n: nat) -> Seq<char>
    decreases n,
{
    if n < 10 {
        seq![digit_char(n)]
    } else {
        dec_str(n / 10) + seq![digit_char(n % 10)]
    }
}

/// Does `s` denote a number that fits in a `u64`?
pub open spec fn is_u64_numeral(s: Seq<char>) -> bool {
    s.len() > 0 && all_digits(s) && str_to_num(s) <= u64::MAX
}

/// A digit's character denotes the digit itself.
pub proof fn lemma_digit_char_val(d: nat)
    requires
        d < 10,
    ensures
        digit_val(digit_char(d)) == d,
        is_digit(digit_char(d)),
{
}

/// The canonical numeral consists of digits.
pub proof fn lemma_dec_str_digits(n: nat)
    ensures
        all_digits(dec_str(n)),
        dec_str(n).len() > 0,
    decreases n,
{
    if n >= 10 {
        lemma_dec_str_digits(n / 10);
    }
}

/// Reading the canonical numeral of `n` back gives `n`: formatting and
/// parsing are mutually inverse.
pub proof fn lemma_dec_str_value(n: nat)
    ensures
        str_to_num(dec_str(n)) == n,
    decreases n,
{
    let s = dec_str(n);
    assert(s.len() > 0) by { lemma_dec_str_digits(n); }
    assert(str_to_num(s) == str_to_num(s.drop_last()) * 10 + digit_val(s.last()));
    if n < 10 {
        lemma_digit_char_val(n);
        assert(s.drop_last() =~= Seq::<char>::empty());
        assert(str_to_num(s.drop_last()) == 0);
        assert(s.last() == digit_char(n));
    } else {
        lemma_dec_str_value(n / 10);
        lemma_digit_char_val(n % 10);
        assert(s.drop_last() =~= dec_str(n / 10));
        assert(s.last() == digit_char(n % 10));
        assert(n / 10 * 10 + n % 10 == n);
    }
}

/// A longer digit prefix never denotes a smaller number.
pub proof fn lemma_str_to_num_prefix_le(s: Seq<char>, i: int, j: int)
    requires
        0 <= i <= j <= s.len(),
        all_digits(s),
    ensures
        str_to_num(s.subrange(0, i)) <= str_to_num(s.subrange(0, j)),
    decreases j - i,
{
    if i < j {
        lemma_str_to_num_prefix_le(s, i, j - 1);
        assert(s.subrange(0, j).drop_last() =~= s.subrange(0, j - 1));
        let v = str_to_num(s.subrange(0, j - 1));
        assert(str_to_num(s.subrange(0, j)) == v * 10 + digit_val(s[j - 1]));
        assert(v <= v * 10);
    }
}

/// Append the digit character of `d` to `s`.
fn push_digit(s: &mut String, d: u64)
    requires
        d < 10,
    ensures
        final(s)@ == old(s)@ + seq![digit_char(d as nat)],
{
    if d == 0 {
        s.append("0");
        proof { reveal_strlit("0"); assert(old(s)@ + "0"@ =~= old(s)@ + seq![digit_char(d as nat)]); }
    } else if d == 1 {
        s.append("1");
        proof { reveal_strlit("1"); assert(old(s)@ + "1"@ =~= old(s)@ + seq![digit_char(d as nat)]); }
    } else if d == 2 {
        s.append("2");
        proof { reveal_strlit("2"); assert(old(s)@ + "2"@ =~= old(s)@ + seq![digit_char(d as nat)]); }
    } else if d == 3 {
        s.append("3");
        proof { reveal_strlit("3"); assert(old(s)@ + "3"@ =~= old(s)@ + seq![digit_char(d as nat)]); }
    } else if d == 4 {
        s.append("4");
        proof { reveal_strlit("4"); assert(old(s)@ + "4"@ =~= old(s)@ + seq![digit_char(d as nat)]); }
    } else if d == 5 {
        s.append("5");
        proof { reveal_strlit("5"); assert(old(s)@ + "5"@ =~= old(s)@ + seq![digit_char(d as nat)]); }
    } else if d == 6 {
        s.append("6");
        proof { reveal_strlit("6"); assert(old(s)@ + "6"@ =~= old(s)@ + seq![digit_char(d as nat)]); }
    } else if d == 7 {
        s.append("7");
        proof { reveal_strlit("7"); assert(old(s)@ + "7"@ =~= old(s)@ + seq![digit_char(d as nat)]); }
    } else if d == 8 {
        s.append("8");
        proof { reveal_strlit("8"); assert(old(s)@ + "8"@ =~= old(s)@ + seq![digit_char(d as nat)]); }
    } else {
        s.append("9");
        proof { reveal_strlit("9"); assert(old(s)@ + "9"@ =~= old(s)@ + seq![digit_char(d as nat)]); }
    }
}

/// Format `n` as its canonical decimal numeral.
pub fn u64_to_dec(n: u64) -> (r: String)
    ensures
        r@ == dec_str(n as nat),
    decreases n,
{
    if n < 10 {
        let mut s = String::new();
        push_digit(&mut s, n);
        proof { assert(s@ =~= dec_str(n as nat)); }
        s
    } else {
        let mut s = u64_to_dec(n / 10);
        push_digit(&mut s, n % 10);
        proof { assert(s@ =~= dec_str(n as nat)); }
        s
    }
}

/// Parse a decimal numeral. Returns the denoted number exactly when the
/// string is non-empty, all digits, and the number fits in a `u64`.
pub fn parse_u64(s: &str) -> (r: Option<u64>)
    ensures
        r == (if is_u64_numeral(s@) { Some(str_to_num(s@) as u64) } else { None::<u64> }),
{
    let len = s.unicode_len();
    if len == 0 {
        return None;
    }
    let mut acc: u64 = 0;
    let mut i: usize = 0;
    while i < len
        invariant
            0 <= i <= len,
            len == s@.len(),
            all_digits(s@.subrange(0, i as int)),
            acc == str_to_num(s@.subrange(0, i as int)),
        decreases len - i,
    {
        let c = s.get_char(i);
        let cu = c as u32;
        if cu < 48 || cu > 57 {
            proof { assert(!is_digit(s@[i as int])); }
            return None;
        }
        let d = (cu - 48) as u64;
        proof {
            assert(s@.subrange(0, i + 1).drop_last() =~= s@.subrange(0, i as int));
            assert(s@.subrange(0, i + 1).last() == s@[i as int]);
        }
        let m = match acc.checked_mul(10) {
            Some(m) => m,
            None => {
                proof {
                    assert(str_to_num(s@.subrange(0, i + 1)) > u64::MAX);
                    if all_digits(s@) {
                        lemma_str_to_num_prefix_le(s@, i + 1, s@.len() as int);
                        assert(s@.subrange(0, s@.len() as int) =~= s@);
                    }
                }
                return None;
            },
        };
        let a = match m.checked_add(d) {
            Some(a) => a,
            None => {
                proof {
                    assert(str_to_num(s@.subrange(0, i + 1)) > u64::MAX);
                    if all_digits(s@) {
                        lemma_str_to_num_prefix_le(s@, i + 1, s@.len() as int);
                        assert(s@.subrange(0, s@.len() as int) =~= s@);
                    }
                }
                return None;
            },
        };
        acc = a;
        i = i + 1;
    }
    proof {
        assert(s@.subrange(0, len as int) =~= s@);
    }
    Some(acc)
}

/// `s` with its longest non-digit prefix removed.
pub open spec fn skip_non_digits(s: Seq<char>) -> Seq<char>
    decreases s.len(),
{
    if s.len() == 0 || is_digit(s[0]) {
        s
    } else {
        skip_non_digits(s.drop_first())
    }
}

/// The longest digit prefix of `s`.
pub open spec fn leading_digits(s: Seq<char>) -> Seq<char>
    decreases s.len(),
{
    if s.len() > 0 && is_digit(s[0]) {
        seq![s[0]] + leading_digits(s.drop_first())
    } else {
        Seq::<char>::empty()
    }
}

/// The first maximal run of digits in `s`.
pub open spec fn first_digit_run(s: Seq<char>) -> Seq<char> {
    leading_digits(skip_non_digits(s))
}

/// If the first `k` characters are digits and the `k`-th is not (or the
/// string ends there), the longest digit prefix is exactly those `k`.
proof fn lemma_leading_digits_exact(t: Seq<char>, k: int)
    requires
        0 <= k <= t.len(),
        forall|m: int| 0 <= m < k ==> is_digit(#[trigger] t[m]),
        k == t.len() || !is_digit(t[k]),
    ensures
        leading_digits(t) == t.subrange(0, k),
    decreases t.len(),
{
    if k == 0 {
        assert(leading_digits(t) =~= t.subrange(0, 0));
    } else {
        lemma_leading_digits_exact(t.drop_first(), k - 1);
        assert(seq![t[0]] + t.drop_first().subrange(0, k - 1) =~= t.subrange(0, k));
    }
}

/// Find the first maximal run of digits and read it as a number.
/// `None` when `s` has no digit at all, or the run does not fit in a `u64`.
pub fn extract_first_number(s: &str) -> (r: Option<u64>)
    ensures
        r == (if is_u64_numeral(first_digit_run(s@)) {
            Some(str_to_num(first_digit_run(s@)) as u64)
        } else {
            None::<u64>
        }),
{
    let len = s.unicode_len();
    let mut i: usize = 0;
    proof {
        assert(s@.skip(0) =~= s@);
    }
    loop
        invariant
            0 <= i <= len,
            len == s@.len(),
            skip_non_digits(s@) == skip_non_digits(s@.skip(i as int)),
        ensures
            0 <= i <= len,
            skip_non_digits(s@) == skip_non_digits(s@.skip(i as int)),
            i == len || is_digit(s@[i as int]),
        decreases len - i,
    {
        if i == len {
            break;
        }
        let c = s.get_char(i);
        let cu = c as u32;
        if 48 <= cu && cu <= 57 {
            break;
        }
        proof {
            assert(s@.skip(i as int).drop_first() =~= s@.skip(i + 1));
        }
        i = i + 1;
    }
    if i == len {
        proof {
            assert(s@.skip(len as int) =~= Seq::<char>::empty());
            assert(first_digit_run(s@).len() == 0);
        }
        return None;
    }
    // A digit stands at `i`; the run is `s[i .. j]` for the first non-digit `j`.
    proof {
        assert(s@.skip(i as int)[0] == s@[i as int]);
        assert(skip_non_digits(s@) == s@.skip(i as int));
    }
    let mut j: usize = i;
    loop
        invariant
            i <= j <= len,
            len == s@.len(),
            forall|m: int| i <= m < j ==> is_digit(#[trigger] s@[m]),
        ensures
            i <= j <= len,
            forall|m: int| i <= m < j ==> is_digit(#[trigger] s@[m]),
            j == len || !is_digit(s@[j as int]),
        decreases len - j,
    {
        if j == len {
            break;
        }
        let c = s.get_char(j);
        let cu = c as u32;
        if cu < 48 || cu > 57 {
            break;
        }
        j = j + 1;
    }
    proof {
        let t = s@.skip(i as int);
        assert(forall|m: int| 0 <= m < j - i ==> is_digit(#[trigger] t[m]));
        assert((j as int) - (i as int) == t.len() || !is_digit(t[(j as int) - (i as int)]));
        lemma_leading_digits_exact(t, (j as int) - (i as int));
        assert(t.subrange(0, (j as int) - (i as int)) =~= s@.subrange(i as int, j as int));
    }
    let run = s.substring_char(i, j);
    parse_u64(run)
}

/// Lexicographic order on character sequences, by code point.
pub open spec fn lex_le(a: Seq<char>, b: Seq<char>) -> bool
    decreases a.len(),
{
    if a.len() == 0 {
        true
    } else if b.len() == 0 {
        false
    } else if (a[0] as u32) < (b[0] as u32) {
        true
    } else if (a[0] as u32) > (b[0] as u32) {
        false
    } else {
        lex_le(a.drop_first(), b.drop_first())
    }
}

/// The order is total: one of the two directions always holds.
pub proof fn lemma_lex_total(a: Seq<char>, b: Seq<char>)
    ensures
        lex_le(a, b) || lex_le(b, a),
    decreases a.len(),
{
    if a.len() > 0 && b.len() > 0 && (a[0] as u32) == (b[0] as u32) {
        lemma_lex_total(a.drop_first(), b.drop_first());
    }
}

/// The order is transitive.
pub proof fn lemma_lex_trans(a: Seq<char>, b: Seq<char>, c: Seq<char>)
    requires
        lex_le(a, b),
        lex_le(b, c),
    ensures
        lex_le(a, c),
    decreases a.len(),
{
    if a.len() > 0 && b.len() > 0 && c.len() > 0 && (a[0] as u32) == (b[0] as u32) && (b[0] as u32)
        == (c[0] as u32) {
        lemma_lex_trans(a.drop_first(), b.drop_first(), c.drop_first());
    }
}

/// Decide `lex_le(a@, b@)`.
pub fn str_le(a: &str, b: &str) -> (r: bool)
    ensures
        r == lex_le(a@, b@),
{
    let alen = a.unicode_len();
    let blen = b.unicode_len();
    let mut i: usize = 0;
    proof {
        assert(a@.skip(0) =~= a@);
        assert(b@.skip(0) =~= b@);
    }
    loop
        invariant
            0 <= i <= alen,
            i <= blen,
            alen == a@.len(),
            blen == b@.len(),
            lex_le(a@, b@) == lex_le(a@.skip(i as int), b@.skip(i as int)),
        decreases alen - i,
    {
        if i == alen {
            return true;
        }
        if i == blen {
            proof {
                assert(a@.skip(i as int).len() > 0);
            }
            return false;
        }
        let ca = a.get_char(i) as u32;
        let cb = b.get_char(i) as u32;
        if ca < cb {
            return true;
        }
        if ca > cb {
            return false;
        }
        proof {
            assert(a@.skip(i as int)[0] == a@[i as int]);
            assert(b@.skip(i as int)[0] == b@[i as int]);
            assert(a@.skip(i as int).drop_first() =~= a@.skip(i + 1));
            assert(b@.skip(i as int).drop_first() =~= b@.skip(i + 1));
        }
        i = i + 1;
    }
}

/// Is a sequence of strings sorted lexicographically?
pub open spec fn lex_sorted(s: Seq<Seq<char>>) -> bool {
    forall|i: int, j: int| 0 <= i < j < s.len() ==> lex_le(#[trigger] s[i], #[trigger] s[j])
}

/// Sort the strings lexicographically. The result holds exactly the same
/// strings, in order.
pub fn sort_strings(v: &mut Vec<String>)
    ensures
        final(v)@.to_multiset() == old(v)@.to_multiset(),
        final(v)@.map_values(|x: String| x@).to_multiset() == old(v)@.map_values(
            |x: String| x@,
        ).to_multiset(),
        final(v)@.len() == old(v)@.len(),
        lex_sorted(final(v)@.map_values(|x: String| x@)),
{
    broadcast use vstd::seq_lib::group_to_multiset_ensures;
    broadcast use vstd::multiset::group_multiset_axioms;

    let n = v.len();
    let mut i: usize = 1;
    while n > 1 && i < n
        invariant
            1 <= i,
            n == v.len(),
            v@.to_multiset() == old(v)@.to_multiset(),
            v@.map_values(|x: String| x@).to_multiset() == old(v)@.map_values(
                |x: String| x@,
            ).to_multiset(),
            n > 1 ==> i <= n,
            lex_sorted(v@.subrange(0, (if i < n { i as int } else { n as int })).map_values(|x: String| x@)),
        decreases n - i,
    {
        let ghost pre = v@;
        let mut j: usize = i;
        loop
            invariant
                0 <= j <= i < n,
                n == v.len(),
                v@ == pre,
                forall|k: int| j <= k < i ==> lex_le(pre[i as int]@, #[trigger] pre[k]@),
            ensures
                0 <= j <= i,
                v@ == pre,
                forall|k: int| j <= k < i ==> lex_le(pre[i as int]@, #[trigger] pre[k]@),
                j == 0 || lex_le(pre[j - 1]@, pre[i as int]@),
            decreases j,
        {
            if j == 0 {
                break;
            }
            if str_le(v[j - 1].as_str(), v[i].as_str()) {
                break;
            }
            proof {
                lemma_lex_total(pre[j - 1]@, pre[i as int]@);
            }
            j = j - 1;
        }
        proof {
            vstd::seq_lib::to_multiset_remove(pre, i as int);
            vstd::seq_lib::to_multiset_insert(pre.remove(i as int), j as int, pre[i as int]);
            pre.to_multiset_ensures();
            assert(pre.contains(pre[i as int]));
            assert(pre.to_multiset().count(pre[i as int]) > 0);
            assert(pre.to_multiset().remove(pre[i as int]).insert(pre[i as int]) =~= pre.to_multiset());
        }
        let x = v.remove(i);
        v.insert(j, x);
        proof {
            assert(v@ =~= pre.remove(i as int).insert(j as int, pre[i as int]));
            let vm_pre = pre.map_values(|y: String| y@);
            let vm_post = v@.map_values(|y: String| y@);
            assert(vm_post =~= vm_pre.remove(i as int).insert(j as int, vm_pre[i as int]));
            vstd::seq_lib::to_multiset_remove(vm_pre, i as int);
            vstd::seq_lib::to_multiset_insert(vm_pre.remove(i as int), j as int, vm_pre[i as int]);
            vm_pre.to_multiset_ensures();
            assert(vm_pre.contains(vm_pre[i as int]));
            assert(vm_pre.to_multiset().count(vm_pre[i as int]) > 0);
            assert(vm_pre.to_multiset().remove(vm_pre[i as int]).insert(vm_pre[i as int])
                =~= vm_pre.to_multiset());
            // Positions below `j` keep their old element; position `j` holds
            // the inserted one; positions in between shift up by one.
            assert(forall|k: int| 0 <= k < j ==> #[trigger] v@[k] == pre[k]);
            assert(v@[j as int] == pre[i as int]);
            assert(forall|k: int| j < k <= i ==> #[trigger] v@[k] == pre[k - 1]);
            let sorted_old = pre.subrange(0, i as int).map_values(|y: String| y@);
            let sorted_new = v@.subrange(0, i + 1).map_values(|y: String| y@);
            assert(forall|k: int| 0 <= k < i ==> #[trigger] sorted_old[k] == pre[k]@);
            assert(forall|k: int| 0 <= k < i + 1 ==> #[trigger] sorted_new[k] == v@[k]@);
            let xv = pre[i as int]@;
            assert forall|p: int, q: int| 0 <= p < q < i + 1 implies lex_le(
                #[trigger] sorted_new[p],
                #[trigger] sorted_new[q],
            ) by {
                if q < j {
                    assert(lex_le(sorted_old[p], sorted_old[q]));
                } else if q == j {
                    assert(lex_le(pre[j - 1]@, xv));
                    if p < j - 1 {
                        assert(lex_le(sorted_old[p], sorted_old[j - 1]));
                        lemma_lex_trans(pre[p]@, pre[j - 1]@, xv);
                    }
                } else if p < j {
                    assert(lex_le(sorted_old[p], sorted_old[q - 1]));
                } else if p == j {
                    assert(lex_le(xv, pre[q - 1]@));
                } else {
                    assert(lex_le(sorted_old[p - 1], sorted_old[q - 1]));
                }
            }
        }
        i = i + 1;
    }
    proof {
        assert(v@.subrange(0, n as int) =~= v@);
    }
}

/// The index of the first string equal to `target`, if any.
pub fn find_string(v: &Vec<String>, target: &String) -> (r: Option<usize>)
    ensures
        match r {
            Some(i) => i < v@.len() && v@[i as int]@ == target@ && (forall|k: int|
                0 <= k < i ==> v@[k]@ != target@),
            None => forall|k: int| 0 <= k < v@.len() ==> v@[k]@ != target@,
        },
{
    let mut i: usize = 0;
    while i < v.len()
        invariant
            0 <= i <= v@.len(),
            forall|k: int| 0 <= k < i ==> v@[k]@ != target@,
        decreases v@.len() - i,
    {
        if v[i].eq(target) {
            return Some(i);
        }
        i = i + 1;
    }
    None
}

} // verus!
