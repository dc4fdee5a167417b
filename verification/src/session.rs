//! The session codec: the client-held session record and its serialization
//! to and from the cookie text, with the round trip proved.

use crate::text::{chars_to_string, push_all, str_to_chars, str_views};
use vstd::arithmetic::div_mod::lemma_fundamental_div_mod;
use vstd::prelude::*;

verus! {

/// The authenticated session, held entirely by the browser in an encrypted
/// cookie: the tokens obtained from the provider and the mapped roles.
#[derive(Debug, PartialEq)]
pub struct OidcSessionCookie {
    pub access_token: String,
    pub id_token: String,
    pub mapped_roles: Vec<String>,
}

/// The mathematical content of a session record.
pub struct SessionView {
    pub access_token: Seq<char>,
    pub id_token: Seq<char>,
    pub mapped_roles: Seq<Seq<char>>,
}

impl View for OidcSessionCookie {
    type V = SessionView;

    open spec fn view(&self) -> SessionView {
        SessionView {
            access_token: self.access_token@,
            id_token: self.id_token@,
            mapped_roles: str_views(self.mapped_roles@),
        }
    }
}

/// A session record whose field lengths fit the machine.
pub open spec fn session_fits(v: SessionView) -> bool {
    &&& v.access_token.len() <= usize::MAX
    &&& v.id_token.len() <= usize::MAX
    &&& v.mapped_roles.len() <= usize::MAX
    &&& forall|i: int|
        0 <= i < v.mapped_roles.len() ==> (#[trigger] v.mapped_roles[i]).len() <= usize::MAX
}

/// Whether `c` is a decimal digit.
pub open spec fn is_digit(c: char) -> bool {
    48 <= c as u32 <= 57
}

/// The value of a digit character.
pub open spec fn digit_val(c: char) -> int {
    c as u32 - 48
}

/// The character of a digit value.
pub open spec fn digit_char(d: int) -> char {
    if d == 0 {
        '0'
    } else if d == 1 {
        '1'
    } else if d == 2 {
        '2'
    } else if d == 3 {
        '3'
    } else if d == 4 {
        '4'
    } else if d == 5 {
        '5'
    } else if d == 6 {
        '6'
    } else if d == 7 {
        '7'
    } else if d == 8 {
        '8'
    } else {
        '9'
    }
}

/// The canonical decimal representation of `n`, most significant digit
/// first, without leading zeros.
pub open spec fn dec_rep(n: nat) -> Seq<char>
    decreases n,
{
    if n < 10 {
        seq![digit_char(n as int)]
    } else {
        dec_rep(n / 10).push(digit_char((n % 10) as int))
    }
}

/// The value of a digit sequence, most significant digit first.
pub open spec fn nat_of_digits(ds: Seq<char>) -> nat
    decreases ds.len(),
{
    if ds.len() == 0 {
        0
    } else {
        (nat_of_digits(ds.drop_last()) * 10 + digit_val(ds.last())) as nat
    }
}

/// The length of the leading run of digits of `s`.
pub open spec fn digits_len(s: Seq<char>) -> nat
    decreases s.len(),
{
    if s.len() == 0 || !is_digit(s[0]) {
        0
    } else {
        1 + digits_len(s.skip(1))
    }
}

/// Powers of ten.
pub open spec fn pow10(k: nat) -> nat
    decreases k,
{
    if k == 0 {
        1
    } else {
        10 * pow10((k - 1) as nat)
    }
}

/// A length value and the text after it, read off a decimal run followed by
/// a colon; refused when no digit leads or the run is implausibly long.
pub open spec fn parse_len(s: Seq<char>) -> Option<(nat, Seq<char>)> {
    let k = digits_len(s);
    if k == 0 || k > 20 {
        None
    } else {
        let v = nat_of_digits(s.take(k as int));
        let rest = s.skip(k as int);
        if rest.len() == 0 || rest[0] != ':' {
            None
        } else {
            Some((v, rest.skip(1)))
        }
    }
}

/// A length-prefixed field and the text after it.
pub open spec fn parse_field(s: Seq<char>) -> Option<(Seq<char>, Seq<char>)> {
    match parse_len(s) {
        None => None,
        Some((v, r)) => if r.len() < v {
            None
        } else {
            Some((r.take(v as int), r.skip(v as int)))
        },
    }
}

/// `m` length-prefixed fields and the text after them.
pub open spec fn parse_roles(s: Seq<char>, m: nat) -> Option<(Seq<Seq<char>>, Seq<char>)>
    decreases m,
{
    if m == 0 {
        Some((Seq::<Seq<char>>::empty(), s))
    } else {
        match parse_field(s) {
            None => None,
            Some((f, r)) => match parse_roles(r, (m - 1) as nat) {
                None => None,
                Some((fs, r2)) => Some((seq![f] + fs, r2)),
            },
        }
    }
}

/// What the cookie text holds: a session record exactly when the text is a
/// well-formed encoding, and nothing otherwise.
pub open spec fn decode_spec(s: Seq<char>) -> Option<SessionView> {
    match parse_field(s) {
        None => None,
        Some((access, r1)) => match parse_field(r1) {
            None => None,
            Some((id, r2)) => match parse_len(r2) {
                None => None,
                Some((m, r3)) => match parse_roles(r3, m) {
                    None => None,
                    Some((roles, r4)) => if r4.len() == 0 {
                        Some(SessionView { access_token: access, id_token: id, mapped_roles: roles })
                    } else {
                        None
                    },
                },
            },
        },
    }
}

/// A field with its length prefix.
pub open spec fn enc_field(f: Seq<char>) -> Seq<char> {
    dec_rep(f.len()) + seq![':'] + f
}

/// The fields of the roles, in order.
pub open spec fn enc_roles(rs: Seq<Seq<char>>) -> Seq<char>
    decreases rs.len(),
{
    if rs.len() == 0 {
        Seq::<char>::empty()
    } else {
        enc_field(rs[0]) + enc_roles(rs.skip(1))
    }
}

/// The cookie text of a session record: both tokens, the role count, and
/// each role, each length-prefixed.
pub open spec fn encode_spec(v: SessionView) -> Seq<char> {
    enc_field(v.access_token) + enc_field(v.id_token) + dec_rep(v.mapped_roles.len()) + seq![':']
        + enc_roles(v.mapped_roles)
}

/// The digit character of a value below ten.
fn digit_of(d: usize) -> (c: char)
    requires
        d < 10,
    ensures
        c == digit_char(d as int),
{
    if d == 0 {
        '0'
    } else if d == 1 {
        '1'
    } else if d == 2 {
        '2'
    } else if d == 3 {
        '3'
    } else if d == 4 {
        '4'
    } else if d == 5 {
        '5'
    } else if d == 6 {
        '6'
    } else if d == 7 {
        '7'
    } else if d == 8 {
        '8'
    } else {
        '9'
    }
}

/// Appends the decimal representation of `n`.
fn push_dec(out: &mut Vec<char>, n: usize)
    ensures
        final(out)@ == old(out)@ + dec_rep(n as nat),
    decreases n,
{
    if n < 10 {
        let c = digit_of(n);
        out.push(c);
        proof {
            assert(old(out)@ + dec_rep(n as nat) =~= old(out)@.push(digit_char(n as int)));
        }
    } else {
        push_dec(out, n / 10);
        let c = digit_of(n % 10);
        out.push(c);
        proof {
            assert(old(out)@ + dec_rep(n as nat) =~= (old(out)@ + dec_rep((n / 10) as nat)).push(
                digit_char((n % 10) as int),
            ));
        }
    }
}

/// Appends one length-prefixed field.
fn push_field(out: &mut Vec<char>, f: &String)
    ensures
        final(out)@ == old(out)@ + enc_field(f@),
{
    let chars = str_to_chars(f.as_str());
    push_dec(out, chars.len());
    out.push(':');
    push_all(out, &chars);
    proof {
        assert(old(out)@ + enc_field(f@) =~= ((old(out)@ + dec_rep(f@.len())).push(':')) + f@);
    }
}

/// Writes the session record as cookie text.
pub fn serialize_session(cookie: &OidcSessionCookie) -> (r: String)
    ensures
        r@ == encode_spec(cookie@),
{
    let mut out: Vec<char> = Vec::new();
    push_field(&mut out, &cookie.access_token);
    push_field(&mut out, &cookie.id_token);
    push_dec(&mut out, cookie.mapped_roles.len());
    out.push(':');
    let ghost roles = str_views(cookie.mapped_roles@);
    let ghost head = out@;
    proof {
        assert(roles.len() == cookie.mapped_roles@.len());
        assert(roles.skip(0) =~= roles);
        assert(head + Seq::<char>::empty() =~= head);
    }
    let mut i: usize = 0;
    while i < cookie.mapped_roles.len()
        invariant
            i <= roles.len(),
            roles == str_views(cookie.mapped_roles@),
            roles.len() == cookie.mapped_roles@.len(),
            out@ + enc_roles(roles.skip(i as int)) == head + enc_roles(roles),
        decreases roles.len() - i,
    {
        let ghost t = roles.skip(i as int);
        proof {
            assert(t[0] == roles[i as int]);
            assert(t.skip(1) =~= roles.skip(i + 1));
            assert(roles[i as int] == cookie.mapped_roles@[i as int]@);
        }
        let ghost before = out@;
        push_field(&mut out, &cookie.mapped_roles[i]);
        proof {
            assert(enc_roles(t) == enc_field(t[0]) + enc_roles(roles.skip(i + 1)));
            assert(out@ + enc_roles(roles.skip(i + 1)) =~= before + enc_roles(t));
        }
        i = i + 1;
    }
    proof {
        assert(enc_roles(roles.skip(roles.len() as int)) =~= Seq::<char>::empty());
        assert(out@ + enc_roles(roles.skip(roles.len() as int)) =~= out@);
        assert(head =~= enc_field(cookie.access_token@) + enc_field(cookie.id_token@) + dec_rep(
            roles.len(),
        ) + seq![':']);
        assert(out@ =~= encode_spec(cookie@));
    }
    chars_to_string(&out)
}

/// Every character of a canonical decimal representation is a digit.
proof fn lemma_dec_rep_digits(n: nat)
    ensures
        forall|i: int| 0 <= i < dec_rep(n).len() ==> is_digit(#[trigger] dec_rep(n)[i]),
        dec_rep(n).len() >= 1,
    decreases n,
{
    if n < 10 {
    } else {
        lemma_dec_rep_digits(n / 10);
        assert forall|i: int| 0 <= i < dec_rep(n).len() implies is_digit(
            #[trigger] dec_rep(n)[i],
        ) by {
            if i < dec_rep(n / 10).len() {
                assert(dec_rep(n)[i] == dec_rep(n / 10)[i]);
            }
        }
    }
}

/// Reading the canonical representation back yields the value.
proof fn lemma_nat_of_dec_rep(n: nat)
    ensures
        nat_of_digits(dec_rep(n)) == n,
    decreases n,
{
    if n < 10 {
        assert(dec_rep(n).drop_last() =~= Seq::<char>::empty());
        assert(nat_of_digits(Seq::<char>::empty()) == 0);
        assert(dec_rep(n).last() == digit_char(n as int));
        assert(digit_val(digit_char(n as int)) == n);
    } else {
        lemma_nat_of_dec_rep(n / 10);
        assert(dec_rep(n).drop_last() =~= dec_rep(n / 10));
        assert(dec_rep(n).last() == digit_char((n % 10) as int));
        assert(digit_val(digit_char((n % 10) as int)) == n % 10);
        assert(nat_of_digits(dec_rep(n)) == (n / 10) * 10 + n % 10);
        assert(n == 10 * (n / 10) + n % 10) by {
            lemma_fundamental_div_mod(n as int, 10);
        }
    }
}

/// The digit run of digits followed by a non-digit (or nothing) is exactly
/// the digits.
proof fn lemma_digits_len_concat(ds: Seq<char>, rest: Seq<char>)
    requires
        forall|i: int| 0 <= i < ds.len() ==> is_digit(#[trigger] ds[i]),
        rest.len() > 0 ==> !is_digit(rest[0]),
    ensures
        digits_len(ds + rest) == ds.len(),
    decreases ds.len(),
{
    if ds.len() == 0 {
        assert(ds + rest =~= rest);
    } else {
        assert((ds + rest)[0] == ds[0]);
        assert((ds + rest).skip(1) =~= ds.skip(1) + rest);
        assert forall|i: int| 0 <= i < ds.skip(1).len() implies is_digit(
            #[trigger] ds.skip(1)[i],
        ) by {
            assert(ds.skip(1)[i] == ds[i + 1]);
        }
        lemma_digits_len_concat(ds.skip(1), rest);
    }
}

/// A digit sequence is worth less than ten to its length.
proof fn lemma_nat_of_digits_bound(ds: Seq<char>)
    requires
        forall|i: int| 0 <= i < ds.len() ==> is_digit(#[trigger] ds[i]),
    ensures
        nat_of_digits(ds) < pow10(ds.len()),
    decreases ds.len(),
{
    if ds.len() == 0 {
    } else {
        assert forall|i: int| 0 <= i < ds.drop_last().len() implies is_digit(
            #[trigger] ds.drop_last()[i],
        ) by {
            assert(ds.drop_last()[i] == ds[i]);
        }
        lemma_nat_of_digits_bound(ds.drop_last());
        assert(is_digit(ds.last()));
        assert(digit_val(ds.last()) <= 9);
    }
}

/// A value below the `k`-th power of ten needs at most `k` digits.
proof fn lemma_dec_rep_len(n: nat, k: nat)
    requires
        1 <= k,
        n < pow10(k),
    ensures
        dec_rep(n).len() <= k,
    decreases n,
{
    if n < 10 {
    } else {
        if k == 1 {
            assert(pow10(1nat) == 10);
            assert(false);
        }
        lemma_fundamental_div_mod(n as int, 10);
        assert(10 * (n / 10) <= n);
        assert(n < 10 * pow10((k - 1) as nat));
        assert(n / 10 < pow10((k - 1) as nat));
        lemma_dec_rep_len(n / 10, (k - 1) as nat);
    }
}

/// The machine word bound lies below the twentieth power of ten.
proof fn lemma_usize_below_pow10_20()
    ensures
        usize::MAX < pow10(20),
        pow10(21) < u128::MAX,
{
    assert(pow10(21nat) == 1000_00000_00000_00000_000) by {
        reveal_with_fuel(pow10, 22);
    }
    assert(pow10(20nat) == 100_00000_00000_00000_000) by {
        reveal_with_fuel(pow10, 21);
    }
}

/// A canonical length prefix parses back to its value, leaving the rest.
proof fn lemma_parse_len_of(n: nat, rest: Seq<char>)
    requires
        n <= usize::MAX,
    ensures
        parse_len(dec_rep(n) + seq![':'] + rest) == Some((n, rest)),
{
    let ds = dec_rep(n);
    let s = ds + seq![':'] + rest;
    lemma_dec_rep_digits(n);
    assert(s =~= ds + (seq![':'] + rest));
    assert(!is_digit((seq![':'] + rest)[0]));
    lemma_digits_len_concat(ds, seq![':'] + rest);
    let k = digits_len(s);
    assert(k == ds.len());
    lemma_usize_below_pow10_20();
    lemma_dec_rep_len(n, 20);
    assert(1 <= k <= 20);
    assert(s.take(k as int) =~= ds);
    lemma_nat_of_dec_rep(n);
    assert(s.skip(k as int) =~= seq![':'] + rest);
    assert((seq![':'] + rest)[0] == ':');
    assert((seq![':'] + rest).skip(1) =~= rest);
}

/// A canonical field parses back to its text, leaving the rest.
proof fn lemma_parse_field_of(f: Seq<char>, rest: Seq<char>)
    requires
        f.len() <= usize::MAX,
    ensures
        parse_field(enc_field(f) + rest) == Some((f, rest)),
{
    let s = enc_field(f) + rest;
    assert(s =~= dec_rep(f.len()) + seq![':'] + (f + rest));
    lemma_parse_len_of(f.len(), f + rest);
    assert((f + rest).take(f.len() as int) =~= f);
    assert((f + rest).skip(f.len() as int) =~= rest);
}

/// Canonical role fields parse back to the roles, leaving the rest.
proof fn lemma_parse_roles_of(rs: Seq<Seq<char>>, rest: Seq<char>)
    requires
        forall|i: int| 0 <= i < rs.len() ==> (#[trigger] rs[i]).len() <= usize::MAX,
    ensures
        parse_roles(enc_roles(rs) + rest, rs.len()) == Some((rs, rest)),
    decreases rs.len(),
{
    if rs.len() == 0 {
        assert(enc_roles(rs) + rest =~= rest);
        assert(seq![] + Seq::<Seq<char>>::empty() =~= Seq::<Seq<char>>::empty());
    } else {
        let s = enc_roles(rs) + rest;
        assert(s =~= enc_field(rs[0]) + (enc_roles(rs.skip(1)) + rest));
        lemma_parse_field_of(rs[0], enc_roles(rs.skip(1)) + rest);
        assert forall|i: int| 0 <= i < rs.skip(1).len() implies (#[trigger] rs.skip(1)[i]).len()
            <= usize::MAX by {
            assert(rs.skip(1)[i] == rs[i + 1]);
        }
        lemma_parse_roles_of(rs.skip(1), rest);
        assert(seq![rs[0]] + rs.skip(1) =~= rs);
    }
}

/// Decoding an encoded session record yields the record back, for any
/// record whose field lengths fit the machine.
pub proof fn lemma_session_round_trip(v: SessionView)
    requires
        session_fits(v),
    ensures
        decode_spec(encode_spec(v)) == Some(v),
{
    let a = enc_field(v.access_token);
    let b = enc_field(v.id_token);
    let c = dec_rep(v.mapped_roles.len());
    let d = seq![':'];
    let e = enc_roles(v.mapped_roles);
    let s = encode_spec(v);
    assert(s =~= a + (b + c + d + e));
    lemma_parse_field_of(v.access_token, b + c + d + e);
    assert(b + c + d + e =~= b + (c + d + e));
    lemma_parse_field_of(v.id_token, c + d + e);
    lemma_parse_len_of(v.mapped_roles.len(), e);
    assert(c + d + e =~= dec_rep(v.mapped_roles.len()) + seq![':'] + e);
    lemma_parse_roles_of(v.mapped_roles, Seq::<char>::empty());
    assert(enc_roles(v.mapped_roles) + Seq::<char>::empty() =~= e);
}

/// Whether `c` is a decimal digit.
fn is_digit_exec(c: char) -> (r: bool)
    ensures
        r == is_digit(c),
{
    let u = c as u32;
    48 <= u && u <= 57
}

/// The run of digits at `i` agrees with the counted prefix.
proof fn lemma_digits_len_eq(t: Seq<char>, k: int)
    requires
        0 <= k <= t.len(),
        forall|q: int| 0 <= q < k ==> is_digit(#[trigger] t[q]),
        k == t.len() || !is_digit(t[k]),
    ensures
        digits_len(t) == k,
    decreases k,
{
    if k == 0 {
    } else {
        assert(is_digit(t[0]));
        assert forall|q: int| 0 <= q < k - 1 implies is_digit(#[trigger] t.skip(1)[q]) by {
            assert(t.skip(1)[q] == t[q + 1]);
        }
        if k < t.len() {
            assert(t.skip(1)[k - 1] == t[k]);
        }
        lemma_digits_len_eq(t.skip(1), k - 1);
    }
}

/// Reads a length prefix at `i`: a digit run of at most twenty digits
/// followed by a colon.
fn parse_len_at(v: &Vec<char>, i: usize) -> (r: Option<(u128, usize)>)
    requires
        i <= v@.len(),
    ensures
        match r {
            Some(p) => i < p.1 <= v@.len() && parse_len(v@.skip(i as int)) == Some(
                (p.0 as nat, v@.skip(p.1 as int)),
            ),
            None => parse_len(v@.skip(i as int)) is None,
        },
{
    let ghost t = v@.skip(i as int);
    let n: usize = v.len();
    let mut k: usize = 0;
    while i + k < n && is_digit_exec(v[i + k])
        invariant
            n == v@.len(),
            i + k <= n,
            t == v@.skip(i as int),
            forall|q: int| 0 <= q < k ==> is_digit(#[trigger] t[q]),
        decreases n - i - k,
    {
        proof {
            assert(t[k as int] == v@[i + k]);
        }
        k = k + 1;
    }
    proof {
        if i + k < v@.len() {
            assert(t[k as int] == v@[i + k]);
        }
        lemma_digits_len_eq(t, k as int);
    }
    if k == 0 || k > 20 {
        return None;
    }
    let mut val: u128 = 0;
    let mut j: usize = 0;
    proof {
        lemma_usize_below_pow10_20();
        assert(t.take(0) =~= Seq::<char>::empty());
    }
    while j < k
        invariant
            j <= k,
            k <= 20,
            n == v@.len(),
            i + k <= n,
            t == v@.skip(i as int),
            forall|q: int| 0 <= q < k ==> is_digit(#[trigger] t[q]),
            val as nat == nat_of_digits(t.take(j as int)),
            pow10(21) < u128::MAX,
            val < pow10(j as nat),
        decreases k - j,
    {
        let c = v[i + j];
        proof {
            assert(t[j as int] == v@[i + j]);
            assert(is_digit(t[j as int]));
            assert(t.take(j + 1).drop_last() =~= t.take(j as int));
            assert(t.take(j + 1).last() == t[j as int]);
            assert(pow10((j + 1) as nat) == 10 * pow10(j as nat));
            assert(pow10(j as nat) <= pow10(20nat)) by {
                lemma_pow10_monotone(j as nat, 20nat);
            }
            assert(pow10(20nat) * 10 == pow10(21nat));
        }
        let d: u128 = (c as u32 - 48) as u128;
        val = val * 10 + d;
        j = j + 1;
    }
    if i + k == n {
        return None;
    }
    if v[i + k] != ':' {
        proof {
            assert(t[k as int] == v@[i + k]);
        }
        return None;
    }
    proof {
        assert(t[k as int] == v@[i + k]);
        assert(t.skip(k as int)[0] == t[k as int]);
        assert(t.skip(k as int).len() > 0);
        assert(t.skip(k as int).skip(1) =~= v@.skip(i + k + 1));
    }
    Some((val, i + k + 1))
}

/// Powers of ten are monotone.
proof fn lemma_pow10_monotone(a: nat, b: nat)
    requires
        a <= b,
    ensures
        pow10(a) <= pow10(b),
    decreases b,
{
    if a < b {
        lemma_pow10_monotone(a, (b - 1) as nat);
        assert(pow10(b) == 10 * pow10((b - 1) as nat));
    }
}

/// The characters of `v` between `a` and `b`.
fn take_sub(v: &Vec<char>, a: usize, b: usize) -> (r: Vec<char>)
    requires
        a <= b <= v@.len(),
    ensures
        r@ == v@.subrange(a as int, b as int),
{
    let mut r: Vec<char> = Vec::new();
    let mut i: usize = a;
    while i < b
        invariant
            a <= i <= b <= v@.len(),
            r@ == v@.subrange(a as int, i as int),
        decreases b - i,
    {
        r.push(v[i]);
        proof {
            assert(v@.subrange(a as int, i + 1) =~= v@.subrange(a as int, i as int).push(
                v@[i as int],
            ));
        }
        i = i + 1;
    }
    r
}

/// Reads a length-prefixed field at `i`.
fn parse_field_at(v: &Vec<char>, i: usize) -> (r: Option<(String, usize)>)
    requires
        i <= v@.len(),
    ensures
        match r {
            Some(p) => i < p.1 <= v@.len() && parse_field(v@.skip(i as int)) == Some(
                (p.0@, v@.skip(p.1 as int)),
            ),
            None => parse_field(v@.skip(i as int)) is None,
        },
{
    let ghost t = v@.skip(i as int);
    match parse_len_at(v, i) {
        None => None,
        Some((val, j)) => {
            let rem: usize = v.len() - j;
            proof {
                assert(v@.skip(j as int).len() == rem);
            }
            if val > rem as u128 {
                return None;
            }
            let flen: usize = val as usize;
            let fchars = take_sub(v, j, j + flen);
            let f = chars_to_string(&fchars);
            proof {
                assert(v@.skip(j as int).take(flen as int) =~= v@.subrange(
                    j as int,
                    j + flen,
                ));
                assert(v@.skip(j as int).skip(flen as int) =~= v@.skip(j + flen));
            }
            Some((f, j + flen))
        },
    }
}

/// Reads the cookie text back into a session record; refuses any text that
/// is not a well-formed encoding.
#[verifier::loop_isolation(false)]
pub fn deserialize_session(s: &str) -> (r: Option<OidcSessionCookie>)
    ensures
        match r {
            Some(c) => decode_spec(s@) == Some(c@),
            None => decode_spec(s@) is None,
        },
{
    let v = str_to_chars(s);
    proof {
        assert(v@.skip(0) =~= v@);
    }
    let (access, i1) = match parse_field_at(&v, 0) {
        None => {
            return None;
        },
        Some(x) => x,
    };
    let (id, i2) = match parse_field_at(&v, i1) {
        None => {
            return None;
        },
        Some(x) => x,
    };
    let (m, i3) = match parse_len_at(&v, i2) {
        None => {
            return None;
        },
        Some(x) => x,
    };
    let ghost target = parse_roles(v@.skip(i3 as int), m as nat);
    let mut roles: Vec<String> = Vec::new();
    let mut i: usize = i3;
    let mut cnt: u128 = 0;
    proof {
        assert(str_views(roles@) =~= Seq::<Seq<char>>::empty());
        match parse_roles(v@.skip(i as int), (m - cnt) as nat) {
            None => {},
            Some(p) => {
                assert(str_views(roles@) + p.0 =~= p.0);
            },
        }
    }
    while cnt < m
        invariant
            cnt <= m,
            i3 <= i <= v@.len(),
            target == parse_roles(v@.skip(i3 as int), m as nat),
            match parse_roles(v@.skip(i as int), (m - cnt) as nat) {
                None => target is None,
                Some(p) => target == Some((str_views(roles@) + p.0, p.1)),
            },
        decreases m - cnt,
    {
        let ghost before = roles@;
        match parse_field_at(&v, i) {
            None => {
                return None;
            },
            Some((f, j)) => {
                proof {
                    let sub = parse_roles(v@.skip(j as int), (m - cnt - 1) as nat);
                    match sub {
                        None => {},
                        Some(p) => {
                            assert(str_views(before.push(f)) =~= str_views(before).push(f@));
                            assert(str_views(before).push(f@) + p.0 =~= str_views(before) + (
                            seq![f@] + p.0));
                        },
                    }
                }
                roles.push(f);
                i = j;
                cnt = cnt + 1;
            },
        }
    }
    proof {
        assert(parse_roles(v@.skip(i as int), 0) == Some(
            (Seq::<Seq<char>>::empty(), v@.skip(i as int)),
        ));
        assert(str_views(roles@) + Seq::<Seq<char>>::empty() =~= str_views(roles@));
    }
    if i < v.len() {
        return None;
    }
    proof {
        assert(v@.skip(i as int).len() == 0);
    }
    let cookie = OidcSessionCookie { access_token: access, id_token: id, mapped_roles: roles };
    Some(cookie)
}

} // verus!
