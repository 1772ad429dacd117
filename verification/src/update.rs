//! Version comparison for the update check. Fetching the latest release is
//! left to the application.

use vstd::prelude::*;
use crate::numbers::{all_digits, digit_value, digits_value, parse_unsigned, parse_unsigned_chars, unsigned_body};
use crate::text::{chars_of, decimal, digit_char, split_chars, split_on, texts};

verus! {

/// What the update check reports.
pub struct UpdateInfo {
    pub current: String,
    pub latest: String,
    pub update_available: bool,
    pub url: String,
}

/// `s` without its leading `v` characters (`trim_start_matches('v')`).
pub open spec fn strip_v(s: Seq<char>) -> Seq<char>
    decreases s.len(),
{
    if s.len() > 0 && s[0] == 'v' {
        strip_v(s.drop_first())
    } else {
        s
    }
}

/// One dotted component as a number; anything that is not a `u32` counts 0.
pub open spec fn component_value(part: Seq<char>) -> nat {
    match parse_unsigned(part, 10, u32::MAX as nat) {
        Some(n) => n,
        None => 0,
    }
}

/// The numeric components of a version such as `v1.2.3`.
pub open spec fn version_parts(v: Seq<char>) -> Seq<nat> {
    split_on(strip_v(v), seq!['.']).map_values(|p: Seq<char>| component_value(p))
}

/// Lexicographic order on component lists; a proper prefix comes first.
pub open spec fn seq_less(a: Seq<nat>, b: Seq<nat>) -> bool
    decreases a.len(),
{
    if b.len() == 0 {
        false
    } else if a.len() == 0 {
        true
    } else if a[0] != b[0] {
        a[0] < b[0]
    } else {
        seq_less(a.drop_first(), b.drop_first())
    }
}

/// `latest` is a newer version than `current`.
pub open spec fn is_newer(latest: Seq<char>, current: Seq<char>) -> bool {
    seq_less(version_parts(current), version_parts(latest))
}

proof fn lemma_strip_v_from(s: Seq<char>, i: int)
    requires
        0 <= i <= s.len(),
        forall|j: int| 0 <= j < i ==> s[j] == 'v',
    ensures
        strip_v(s) == strip_v(s.subrange(i, s.len() as int)),
    decreases i,
{
    if i > 0 {
        assert(s.drop_first().subrange(i - 1, s.drop_first().len() as int) =~= s.subrange(
            i,
            s.len() as int,
        ));
        assert forall|j: int| 0 <= j < i - 1 implies s.drop_first()[j] == 'v' by {
            assert(s.drop_first()[j] == s[j + 1]);
        }
        lemma_strip_v_from(s.drop_first(), i - 1);
    } else {
        assert(s.subrange(0, s.len() as int) =~= s);
    }
}

/// A list of `u32` as natural numbers.
pub open spec fn as_nats(s: Seq<u32>) -> Seq<nat> {
    s.map_values(|x: u32| x as nat)
}

fn parse_version(v: &str) -> (res: Vec<u32>)
    ensures
        as_nats(res@) == version_parts(v@),
{
    let chars = chars_of(v);
    let mut start: usize = 0;
    while start < chars.len() && chars[start] == 'v'
        invariant
            start <= chars@.len(),
            chars@ == v@,
            forall|j: int| 0 <= j < start ==> chars@[j] == 'v',
        decreases chars.len() - start,
    {
        start = start + 1;
    }
    let mut rest: Vec<char> = Vec::new();
    let mut i: usize = start;
    while i < chars.len()
        invariant
            start <= i <= chars@.len(),
            rest@ == chars@.subrange(start as int, i as int),
        decreases chars.len() - i,
    {
        rest.push(chars[i]);
        proof {
            assert(chars@.subrange(start as int, i + 1) =~= chars@.subrange(start as int, i as int).push(
                chars@[i as int],
            ));
        }
        i = i + 1;
    }
    proof {
        lemma_strip_v_from(v@, start as int);
        let r = v@.subrange(start as int, v@.len() as int);
        assert(rest@ == r);
        if r.len() > 0 {
            assert(r[0] == v@[start as int]);
        }
        assert(strip_v(r) == r);
    }
    let seps: Vec<char> = vec!['.'];
    proof {
        assert(seps@ =~= seq!['.']);
    }
    let parts = split_chars(&rest, &seps);
    let ghost pieces = texts(parts@);
    let mut out: Vec<u32> = Vec::new();
    let mut k: usize = 0;
    while k < parts.len()
        invariant
            k <= parts@.len(),
            pieces == texts(parts@),
            pieces == split_on(strip_v(v@), seq!['.']),
            out@.len() == k,
            forall|j: int| 0 <= j < k ==> out@[j] as nat == component_value(pieces[j]),
        decreases parts.len() - k,
    {
        proof {
            assert(pieces[k as int] == parts@[k as int]@);
        }
        let n: u32 = match parse_unsigned_chars(&parts[k], 10, 4294967295) {
            Some(x) => x as u32,
            None => 0,
        };
        out.push(n);
        k = k + 1;
    }
    assert(as_nats(out@) =~= version_parts(v@));
    out
}

proof fn lemma_seq_less_skip(a: Seq<nat>, b: Seq<nat>, i: int)
    requires
        0 <= i <= a.len(),
        i <= b.len(),
        forall|j: int| 0 <= j < i ==> a[j] == b[j],
    ensures
        seq_less(a, b) == seq_less(a.skip(i), b.skip(i)),
    decreases i,
{
    if i > 0 {
        assert(a.drop_first().skip(i - 1) =~= a.skip(i));
        assert(b.drop_first().skip(i - 1) =~= b.skip(i));
        assert forall|j: int| 0 <= j < i - 1 implies a.drop_first()[j] == b.drop_first()[j] by {
            assert(a[j + 1] == b[j + 1]);
        }
        lemma_seq_less_skip(a.drop_first(), b.drop_first(), i - 1);
    } else {
        assert(a.skip(0) =~= a);
        assert(b.skip(0) =~= b);
    }
}

/// Whether version `latest` is newer than `current`: their dotted numeric
/// components compared in order, a leading `v` ignored, a component that is
/// not a number counted as 0, and a shorter list that agrees with a longer
/// one counted older.
pub fn version_newer(latest: &str, current: &str) -> (res: bool)
    ensures
        res == is_newer(latest@, current@),
{
    let a = parse_version(current);
    let b = parse_version(latest);
    let ghost sa = as_nats(a@);
    let ghost sb = as_nats(b@);
    let mut i: usize = 0;
    while i < a.len() && i < b.len()
        invariant
            i <= a@.len(),
            i <= b@.len(),
            sa == as_nats(a@),
            sb == as_nats(b@),
            sa == version_parts(current@),
            sb == version_parts(latest@),
            forall|j: int| 0 <= j < i ==> a@[j] == b@[j],
        decreases a.len() - i,
    {
        if a[i] != b[i] {
            proof {
                assert forall|j: int| 0 <= j < i implies sa[j] == sb[j] by {
                    assert(sa[j] == a@[j] as nat && sb[j] == b@[j] as nat);
                }
                lemma_seq_less_skip(sa, sb, i as int);
                let ta = sa.skip(i as int);
                let tb = sb.skip(i as int);
                assert(ta.len() > 0 && tb.len() > 0);
                assert(ta[0] == sa[i as int] && sa[i as int] == a@[i as int] as nat);
                assert(tb[0] == sb[i as int] && sb[i as int] == b@[i as int] as nat);
            }
            return a[i] < b[i];
        }
        i = i + 1;
    }
    proof {
        assert forall|j: int| 0 <= j < i implies sa[j] == sb[j] by {
            assert(sa[j] == a@[j] as nat && sb[j] == b@[j] as nat);
        }
        lemma_seq_less_skip(sa, sb, i as int);
        assert(sa.skip(i as int).len() == 0 || sb.skip(i as int).len() == 0);
    }
    i < b.len()
}

/// What an update check reports: the running and the latest version, whether
/// the latest is newer, and where to get it.
pub fn update_info(current: &str, latest: String, url: String) -> (res: UpdateInfo)
    ensures
        res.current@ == current@,
        res.latest@ == latest@,
        res.update_available == is_newer(latest@, current@),
        res.url@ == url@,
{
    let update_available = version_newer(latest.as_str(), current);
    UpdateInfo { current: current.to_owned(), latest, update_available, url }
}

// ---------------------------------------------------------------------------
// Laws
// ---------------------------------------------------------------------------

proof fn lemma_seq_less_irreflexive(a: Seq<nat>)
    ensures
        !seq_less(a, a),
    decreases a.len(),
{
    if a.len() > 0 {
        lemma_seq_less_irreflexive(a.drop_first());
    }
}

proof fn lemma_seq_less_transitive(a: Seq<nat>, b: Seq<nat>, c: Seq<nat>)
    requires
        seq_less(a, b),
        seq_less(b, c),
    ensures
        seq_less(a, c),
    decreases a.len(),
{
    if a.len() > 0 && a[0] == b[0] && b[0] == c[0] {
        lemma_seq_less_transitive(a.drop_first(), b.drop_first(), c.drop_first());
    }
}

/// No version is newer than itself.
pub proof fn version_newer_is_irreflexive(v: Seq<char>)
    ensures
        !is_newer(v, v),
{
    lemma_seq_less_irreflexive(version_parts(v));
}

/// "Newer" runs one way: if `a` is newer than `b`, `b` is not newer than `a`.
pub proof fn version_newer_is_asymmetric(a: Seq<char>, b: Seq<char>)
    requires
        is_newer(a, b),
    ensures
        !is_newer(b, a),
{
    if is_newer(b, a) {
        lemma_seq_less_transitive(version_parts(b), version_parts(a), version_parts(b));
        lemma_seq_less_irreflexive(version_parts(b));
    }
}

/// "Newer" chains: if `a` is newer than `b` and `b` newer than `c`, then `a`
/// is newer than `c`.
pub proof fn version_newer_is_transitive(a: Seq<char>, b: Seq<char>, c: Seq<char>)
    requires
        is_newer(a, b),
        is_newer(b, c),
    ensures
        is_newer(a, c),
{
    lemma_seq_less_transitive(version_parts(c), version_parts(b), version_parts(a));
}

proof fn lemma_decimal_digits(n: nat)
    ensures
        decimal(n).len() > 0,
        all_digits(decimal(n), 10),
        digits_value(decimal(n), 10) == n,
        decimal(n)[0] != '+',
    decreases n,
{
    let s = decimal(n);
    if n < 10 {
        let c = digit_char(n as int);
        assert(s == seq![c]);
        assert(c as nat == 48 + n);
        assert(digit_value(c, 10) == Some(n));
        assert(s.drop_last() =~= Seq::<char>::empty());
        assert(s.last() == c);
        assert(digits_value(s.drop_last(), 10) == 0);
        assert(digits_value(s, 10) == 10 * digits_value(s.drop_last(), 10) + n);
    } else {
        let t = decimal(n / 10);
        let c = digit_char((n % 10) as int);
        lemma_decimal_digits(n / 10);
        assert(s == t.push(c));
        assert(c as nat == 48 + n % 10);
        assert(digit_value(c, 10) == Some(n % 10));
        assert(s.drop_last() =~= t);
        assert(s.last() == c);
        assert(s[0] == t[0]);
        assert forall|i: int| 0 <= i < s.len() implies (#[trigger] digit_value(s[i], 10)) is Some by {
            if i < t.len() {
                assert(s[i] == t[i]);
            }
        }
        assert(digits_value(s, 10) == 10 * digits_value(t, 10) + n % 10);
        assert(10 * (n / 10) + n % 10 == n);
    }
}

/// Each dotted component is read as a decimal number: the decimal text of
/// any `u32` value reads back as that value.
pub proof fn components_are_decimal(n: nat)
    requires
        n <= u32::MAX,
    ensures
        component_value(decimal(n)) == n,
{
    lemma_decimal_digits(n);
    assert(unsigned_body(decimal(n)) == decimal(n));
}

proof fn lemma_seq_less_at(a: Seq<nat>, b: Seq<nat>, i: int)
    requires
        0 <= i < a.len(),
        i < b.len(),
        forall|j: int| 0 <= j < i ==> a[j] == b[j],
        a[i] < b[i],
    ensures
        seq_less(a, b),
    decreases i,
{
    if i > 0 {
        assert forall|j: int| 0 <= j < i - 1 implies a.drop_first()[j] == b.drop_first()[j] by {
            assert(a.drop_first()[j] == a[j + 1]);
            assert(b.drop_first()[j] == b[j + 1]);
        }
        assert(a[0] == b[0]);
        lemma_seq_less_at(a.drop_first(), b.drop_first(), i - 1);
    }
}

/// Raising one component, the earlier ones equal, makes a version newer.
pub proof fn a_larger_component_is_newer(latest: Seq<char>, current: Seq<char>, i: int)
    requires
        0 <= i < version_parts(latest).len(),
        i < version_parts(current).len(),
        forall|j: int| 0 <= j < i ==> version_parts(latest)[j] == version_parts(current)[j],
        version_parts(current)[i] < version_parts(latest)[i],
    ensures
        is_newer(latest, current),
{
    lemma_seq_less_at(version_parts(current), version_parts(latest), i);
}

} // verus!
