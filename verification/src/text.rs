//! Character-level helpers shared by the modules: building strings,
//! whitespace, decimal and hexadecimal digits.

use vstd::prelude::*;

verus! {

/// Appends one character to a string (`String::push`).
#[verifier::external_body]
pub fn push_char(s: &mut String, c: char)
    ensures
        final(s)@ == old(s)@.push(c),
{
    s.push(c);
}

/// The string whose characters are `chars`, in order.
pub fn string_from(chars: &Vec<char>) -> (res: String)
    ensures
        res@ == chars@,
{
    let mut out = String::new();
    let mut i: usize = 0;
    while i < chars.len()
        invariant
            i <= chars.len(),
            out@ == chars@.subrange(0, i as int),
        decreases chars.len() - i,
    {
        push_char(&mut out, chars[i]);
        proof {
            assert(chars@.subrange(0, i + 1) == chars@.subrange(0, i as int).push(chars@[i as int]));
        }
        i = i + 1;
    }
    proof {
        assert(chars@.subrange(0, chars@.len() as int) == chars@);
    }
    out
}

/// The characters of `s`, in order.
pub fn chars_of(s: &str) -> (res: Vec<char>)
    ensures
        res@ == s@,
{
    let mut out: Vec<char> = Vec::new();
    for c in it: s.chars()
        invariant
            out@ == it.seq().subrange(0, it.index() as int),
            it.seq() == s@,
    {
        out.push(c);
    }
    out
}


/// The decimal digit character for a value below 10.
pub open spec fn digit_char(d: int) -> char {
    (48 + d) as char
}

/// Decimal text of a natural number, without leading zeros.
pub open spec fn decimal(n: nat) -> Seq<char>
    decreases n,
{
    if n < 10 {
        seq![digit_char(n as int)]
    } else {
        decimal(n / 10).push(digit_char((n % 10) as int))
    }
}

/// Decimal text of an integer, with a leading `-` when it is negative.
pub open spec fn signed_decimal(v: int) -> Seq<char> {
    if v < 0 {
        seq!['-'] + decimal((-v) as nat)
    } else {
        decimal(v as nat)
    }
}

fn push_decimal(out: &mut String, n: u64)
    ensures
        final(out)@ == old(out)@ + decimal(n as nat),
    decreases n,
{
    if n >= 10 {
        push_decimal(out, n / 10);
    }
    let d = (n % 10) as u8;
    push_char(out, (48u8 + d) as char);
}

/// Decimal text of an unsigned number (`u64::to_string`).
pub fn decimal_u64(n: u64) -> (res: String)
    ensures
        res@ == decimal(n as nat),
{
    let mut out = String::new();
    push_decimal(&mut out, n);
    out
}

/// Decimal text of a signed number (`i64::to_string`).
pub fn decimal_i64(v: i64) -> (res: String)
    ensures
        res@ == signed_decimal(v as int),
{
    let mut out = String::new();
    if v < 0 {
        push_char(&mut out, '-');
        let magnitude: u64 = if v == i64::MIN {
            9223372036854775808u64
        } else {
            (-v) as u64
        };
        push_decimal(&mut out, magnitude);
    } else {
        push_decimal(&mut out, v as u64);
    }
    out
}

/// Appends `more` to the end of `out`.
pub fn append_bytes(out: &mut Vec<u8>, more: &[u8])
    ensures
        final(out)@ == old(out)@ + more@,
{
    let mut i: usize = 0;
    while i < more.len()
        invariant
            i <= more.len(),
            out@ == old(out)@ + more@.subrange(0, i as int),
        decreases more.len() - i,
    {
        out.push(more[i]);
        proof {
            assert(more@.subrange(0, i + 1) =~= more@.subrange(0, i as int).push(more@[i as int]));
        }
        i = i + 1;
    }
    proof {
        assert(more@.subrange(0, more@.len() as int) =~= more@);
    }
}


// ---------------------------------------------------------------------------
// Whitespace and trimming
// ---------------------------------------------------------------------------

/// Unicode `White_Space` (`char::is_whitespace`).
pub open spec fn is_space(c: char) -> bool {
    ('\u{9}' <= c && c <= '\u{d}') || c == ' ' || c == '\u{85}' || c == '\u{a0}' || c
        == '\u{1680}' || ('\u{2000}' <= c && c <= '\u{200a}') || c == '\u{2028}' || c
        == '\u{2029}' || c == '\u{202f}' || c == '\u{205f}' || c == '\u{3000}'
}

/// `char::is_whitespace`.
pub fn is_space_exec(c: char) -> (res: bool)
    ensures
        res == is_space(c),
{
    ('\u{9}' <= c && c <= '\u{d}') || c == ' ' || c == '\u{85}' || c == '\u{a0}' || c
        == '\u{1680}' || ('\u{2000}' <= c && c <= '\u{200a}') || c == '\u{2028}' || c
        == '\u{2029}' || c == '\u{202f}' || c == '\u{205f}' || c == '\u{3000}'
}

/// `s` without leading whitespace.
pub open spec fn trim_start(s: Seq<char>) -> Seq<char>
    decreases s.len(),
{
    if s.len() > 0 && is_space(s[0]) {
        trim_start(s.drop_first())
    } else {
        s
    }
}

/// `s` without trailing whitespace.
pub open spec fn trim_end(s: Seq<char>) -> Seq<char>
    decreases s.len(),
{
    if s.len() > 0 && is_space(s.last()) {
        trim_end(s.drop_last())
    } else {
        s
    }
}

/// `s` without leading or trailing whitespace (`str::trim`).
pub open spec fn trim(s: Seq<char>) -> Seq<char> {
    trim_end(trim_start(s))
}

proof fn lemma_trim_start_from(s: Seq<char>, i: int)
    requires
        0 <= i <= s.len(),
        forall|j: int| 0 <= j < i ==> is_space(#[trigger] s[j]),
    ensures
        trim_start(s) == trim_start(s.subrange(i, s.len() as int)),
    decreases i,
{
    if i > 0 {
        assert(s.drop_first().subrange(i - 1, s.drop_first().len() as int) =~= s.subrange(
            i,
            s.len() as int,
        ));
        assert forall|j: int| 0 <= j < i - 1 implies is_space(#[trigger] s.drop_first()[j]) by {
            assert(s.drop_first()[j] == s[j + 1]);
        }
        lemma_trim_start_from(s.drop_first(), i - 1);
    } else {
        assert(s.subrange(0, s.len() as int) =~= s);
    }
}

proof fn lemma_trim_end_to(s: Seq<char>, i: int)
    requires
        0 <= i <= s.len(),
        forall|j: int| i <= j < s.len() ==> is_space(#[trigger] s[j]),
    ensures
        trim_end(s) == trim_end(s.subrange(0, i)),
    decreases s.len() - i,
{
    if i < s.len() {
        assert(s.drop_last().subrange(0, i) =~= s.subrange(0, i));
        assert forall|j: int| i <= j < s.drop_last().len() implies is_space(
            #[trigger] s.drop_last()[j],
        ) by {
            assert(s.drop_last()[j] == s[j]);
        }
        lemma_trim_end_to(s.drop_last(), i);
    } else {
        assert(s.subrange(0, s.len() as int) =~= s);
    }
}

/// The characters of `s` with leading and trailing whitespace removed.
pub fn trim_chars(s: &Vec<char>) -> (res: Vec<char>)
    ensures
        res@ == trim(s@),
{
    let mut start: usize = 0;
    while start < s.len() && is_space_exec(s[start])
        invariant
            start <= s@.len(),
            forall|j: int| 0 <= j < start ==> is_space(#[trigger] s@[j]),
        decreases s.len() - start,
    {
        start = start + 1;
    }
    let ghost rest = s@.subrange(start as int, s@.len() as int);
    proof {
        lemma_trim_start_from(s@, start as int);
        if rest.len() > 0 {
            assert(rest[0] == s@[start as int]);
        }
        assert(trim_start(rest) == rest);
    }
    let mut end: usize = s.len();
    while end > start && is_space_exec(s[end - 1])
        invariant
            start <= end <= s@.len(),
            rest == s@.subrange(start as int, s@.len() as int),
            forall|j: int| end <= j < s@.len() ==> is_space(#[trigger] s@[j]),
        decreases end,
    {
        end = end - 1;
    }
    let mut out: Vec<char> = Vec::new();
    let mut i: usize = start;
    while i < end
        invariant
            start <= i <= end,
            end <= s@.len(),
            out@ == s@.subrange(start as int, i as int),
        decreases end - i,
    {
        out.push(s[i]);
        proof {
            assert(s@.subrange(start as int, i + 1) =~= s@.subrange(start as int, i as int).push(
                s@[i as int],
            ));
        }
        i = i + 1;
    }
    proof {
        let k = end - start;
        assert forall|j: int| k <= j < rest.len() implies is_space(#[trigger] rest[j]) by {
            assert(rest[j] == s@[start + j]);
        }
        lemma_trim_end_to(rest, k);
        assert(rest.subrange(0, k) =~= out@);
        if k > 0 {
            assert(out@.last() == s@[end - 1]);
        }
        assert(trim_end(out@) == out@);
    }
    out
}

// ---------------------------------------------------------------------------
// Searching and splitting
// ---------------------------------------------------------------------------

/// `pat` occurs in `s` starting at `i`.
pub open spec fn occurs_at(s: Seq<char>, pat: Seq<char>, i: int) -> bool {
    0 <= i && i + pat.len() <= s.len() && s.subrange(i, i + pat.len()) == pat
}

/// `pat` occurs somewhere in `s` (`str::contains`).
pub open spec fn has_substring(s: Seq<char>, pat: Seq<char>) -> bool {
    exists|i: int| occurs_at(s, pat, i)
}

/// Whether `pat` occurs at `i` in `s`.
pub fn occurs_at_exec(s: &Vec<char>, pat: &Vec<char>, i: usize) -> (res: bool)
    ensures
        res == occurs_at(s@, pat@, i as int),
{
    if pat.len() > s.len() || i > s.len() - pat.len() {
        return false;
    }
    let mut k: usize = 0;
    while k < pat.len()
        invariant
            i + pat@.len() <= s@.len(),
            s@.len() == s.len(),
            k <= pat@.len(),
            forall|j: int| 0 <= j < k ==> s@[i + j] == pat@[j],
        decreases pat.len() - k,
    {
        if s[i + k] != pat[k] {
            proof {
                assert(s@.subrange(i as int, i + pat@.len())[k as int] != pat@[k as int]);
            }
            return false;
        }
        k = k + 1;
    }
    assert(s@.subrange(i as int, i + pat@.len()) =~= pat@);
    true
}

/// Whether `pat` occurs in `s`.
pub fn contains_chars(s: &Vec<char>, pat: &Vec<char>) -> (res: bool)
    ensures
        res == has_substring(s@, pat@),
{
    let mut i: usize = 0;
    while i < s.len()
        invariant
            i <= s@.len(),
            forall|j: int| 0 <= j < i ==> !occurs_at(s@, pat@, j),
        decreases s.len() - i,
    {
        if occurs_at_exec(s, pat, i) {
            return true;
        }
        i = i + 1;
    }
    if occurs_at_exec(s, pat, i) {
        return true;
    }
    proof {
        assert forall|j: int| !occurs_at(s@, pat@, j) by {
            if 0 <= j && j + pat@.len() <= s@.len() {
                assert(j <= i);
            }
        }
    }
    false
}

/// Whether `s` contains the character `c`.
pub fn contains_char(s: &Vec<char>, c: char) -> (res: bool)
    ensures
        res == s@.contains(c),
{
    let mut i: usize = 0;
    while i < s.len()
        invariant
            i <= s@.len(),
            forall|j: int| 0 <= j < i ==> s@[j] != c,
        decreases s.len() - i,
    {
        if s[i] == c {
            return true;
        }
        i = i + 1;
    }
    false
}

/// Pieces of `s` between the separators in `seps`, empty pieces included
/// (`str::split` with a set of separator characters).
pub open spec fn split_on(s: Seq<char>, seps: Seq<char>) -> Seq<Seq<char>>
    decreases s.len(),
{
    if s.len() == 0 {
        seq![Seq::empty()]
    } else {
        let pieces = split_on(s.drop_last(), seps);
        if seps.contains(s.last()) {
            pieces.push(Seq::empty())
        } else {
            pieces.update(pieces.len() - 1, pieces.last().push(s.last()))
        }
    }
}

proof fn lemma_split_on_nonempty(s: Seq<char>, seps: Seq<char>)
    ensures
        split_on(s, seps).len() >= 1,
    decreases s.len(),
{
    if s.len() > 0 {
        lemma_split_on_nonempty(s.drop_last(), seps);
    }
}

/// The texts of a list of character vectors.
pub open spec fn texts(v: Seq<Vec<char>>) -> Seq<Seq<char>> {
    v.map_values(|p: Vec<char>| p@)
}

/// Splits `s` at every character of `seps`.
pub fn split_chars(s: &Vec<char>, seps: &Vec<char>) -> (res: Vec<Vec<char>>)
    ensures
        texts(res@) == split_on(s@, seps@),
{
    let mut pieces: Vec<Vec<char>> = Vec::new();
    let mut current: Vec<char> = Vec::new();
    let mut i: usize = 0;
    proof {
        assert(s@.subrange(0, 0) =~= Seq::<char>::empty());
        assert(texts(pieces@).push(current@) =~= split_on(s@.subrange(0, 0), seps@));
    }
    while i < s.len()
        invariant
            i <= s@.len(),
            texts(pieces@).push(current@) == split_on(s@.subrange(0, i as int), seps@),
        decreases s.len() - i,
    {
        let c = s[i];
        let ghost prefix = s@.subrange(0, i + 1);
        proof {
            assert(prefix.drop_last() =~= s@.subrange(0, i as int));
            assert(prefix.last() == c);
            lemma_split_on_nonempty(s@.subrange(0, i as int), seps@);
        }
        if contains_char(seps, c) {
            let done = current;
            pieces.push(done);
            current = Vec::new();
            proof {
                assert(texts(pieces@).push(current@) =~= split_on(prefix, seps@));
            }
        } else {
            current.push(c);
            proof {
                assert(texts(pieces@).push(current@) =~= split_on(prefix, seps@));
            }
        }
        i = i + 1;
    }
    pieces.push(current);
    proof {
        assert(s@.subrange(0, s@.len() as int) =~= s@);
        assert(texts(pieces@) =~= split_on(s@, seps@));
    }
    pieces
}


/// Whether `s` begins with `prefix`.
pub fn starts_with_chars(s: &Vec<char>, prefix: &Vec<char>) -> (res: bool)
    ensures
        res == prefix@.is_prefix_of(s@),
{
    if prefix.len() > s.len() {
        return false;
    }
    let r = occurs_at_exec(s, prefix, 0);
    proof {
        if r {
            assert(s@.subrange(0, prefix@.len() as int) =~= prefix@);
        }
    }
    r
}


/// Whether `s` ends with `suffix`.
pub fn ends_with_chars(s: &Vec<char>, suffix: &Vec<char>) -> (res: bool)
    ensures
        res == suffix@.is_suffix_of(s@),
{
    if suffix.len() > s.len() {
        return false;
    }
    let start = s.len() - suffix.len();
    let r = occurs_at_exec(s, suffix, start);
    proof {
        if r {
            assert(s@.subrange(s@.len() - suffix@.len(), s@.len() as int) =~= suffix@);
        } else {
            assert(s@.subrange(start as int, start + suffix@.len()) =~= s@.subrange(
                s@.len() - suffix@.len(),
                s@.len() as int,
            ));
        }
    }
    r
}

/// The characters of `s` from `from` up to `to`.
pub fn slice_chars(s: &Vec<char>, from: usize, to: usize) -> (res: Vec<char>)
    requires
        from <= to <= s@.len(),
    ensures
        res@ == s@.subrange(from as int, to as int),
{
    let mut out: Vec<char> = Vec::new();
    let mut i: usize = from;
    while i < to
        invariant
            from <= i <= to,
            to <= s@.len(),
            out@ == s@.subrange(from as int, i as int),
        decreases to - i,
    {
        out.push(s[i]);
        proof {
            assert(s@.subrange(from as int, i + 1) =~= s@.subrange(from as int, i as int).push(
                s@[i as int],
            ));
        }
        i = i + 1;
    }
    out
}

/// Where `pat` occurs last in `s` (`str::rfind`).
pub fn last_occurrence(s: &Vec<char>, pat: &Vec<char>) -> (res: Option<usize>)
    ensures
        res matches Some(p) ==> occurs_at(s@, pat@, p as int) && forall|q: int|
            p < q ==> !#[trigger] occurs_at(s@, pat@, q),
        res is None ==> !has_substring(s@, pat@),
{
    if pat.len() > s.len() {
        proof {
            assert forall|q: int| !#[trigger] occurs_at(s@, pat@, q) by {}
        }
        return None;
    }
    let mut p: usize = s.len() - pat.len();
    loop
        invariant
            p + pat@.len() <= s@.len(),
            forall|q: int| p < q ==> !#[trigger] occurs_at(s@, pat@, q),
        decreases p,
    {
        if occurs_at_exec(s, pat, p) {
            return Some(p);
        }
        if p == 0 {
            proof {
                assert forall|q: int| !#[trigger] occurs_at(s@, pat@, q) by {
                    if q == 0 {
                        assert(!occurs_at(s@, pat@, 0));
                    }
                }
            }
            return None;
        }
        p = p - 1;
    }
}

/// `s` without trailing whitespace.
pub fn trim_end_chars(s: &Vec<char>) -> (res: Vec<char>)
    ensures
        res@ == trim_end(s@),
{
    let mut end: usize = s.len();
    while end > 0 && is_space_exec(s[end - 1])
        invariant
            end <= s@.len(),
            forall|j: int| end <= j < s@.len() ==> is_space(#[trigger] s@[j]),
        decreases end,
    {
        end = end - 1;
    }
    let out = slice_chars(s, 0, end);
    proof {
        lemma_trim_end_to(s@, end as int);
        if end > 0 {
            assert(out@.last() == s@[end - 1]);
        }
        assert(trim_end(out@) == out@);
    }
    out
}

/// `s` with every `c` replaced by `with` (`str::replace` of a character).
pub open spec fn replaced(s: Seq<char>, c: char, with: Seq<char>) -> Seq<char>
    decreases s.len(),
{
    if s.len() == 0 {
        Seq::empty()
    } else {
        replaced(s.drop_last(), c, with) + if s.last() == c {
            with
        } else {
            seq![s.last()]
        }
    }
}

/// Replaces every `c` in `s` by `with`.
pub fn replace_char(s: &Vec<char>, c: char, with: &Vec<char>) -> (res: Vec<char>)
    ensures
        res@ == replaced(s@, c, with@),
{
    let mut out: Vec<char> = Vec::new();
    let mut i: usize = 0;
    while i < s.len()
        invariant
            i <= s@.len(),
            out@ == replaced(s@.subrange(0, i as int), c, with@),
        decreases s.len() - i,
    {
        let ghost prefix = s@.subrange(0, i + 1);
        proof {
            assert(prefix.drop_last() =~= s@.subrange(0, i as int));
            assert(prefix.last() == s@[i as int]);
        }
        if s[i] == c {
            let mut k: usize = 0;
            let ghost before = out@;
            while k < with.len()
                invariant
                    k <= with@.len(),
                    out@ == before + with@.subrange(0, k as int),
                decreases with.len() - k,
            {
                out.push(with[k]);
                proof {
                    assert(with@.subrange(0, k + 1) =~= with@.subrange(0, k as int).push(with@[k as int]));
                }
                k = k + 1;
            }
            proof {
                assert(with@.subrange(0, with@.len() as int) =~= with@);
            }
        } else {
            out.push(s[i]);
        }
        proof {
            assert(out@ =~= replaced(prefix, c, with@));
        }
        i = i + 1;
    }
    proof {
        assert(s@.subrange(0, s@.len() as int) =~= s@);
    }
    out
}

/// The lowercase form of a text (`str::to_lowercase`), as std computes it.
pub uninterp spec fn lowercase_of(s: Seq<char>) -> Seq<char>;

/// `str::to_lowercase`. Trusted: the result is std's Unicode lowercase form
/// of `s`, a function of `s` alone (named `lowercase_of`).
#[verifier::external_body]
pub fn to_lowercase(s: &str) -> (res: String)
    ensures
        res@ == lowercase_of(s@),
{
    s.to_lowercase()
}


/// `s` with every leading copy of `prefix` removed (`str::trim_start_matches`).
pub open spec fn strip_prefixes(s: Seq<char>, prefix: Seq<char>) -> Seq<char>
    decreases s.len(),
{
    if prefix.len() > 0 && prefix.is_prefix_of(s) {
        strip_prefixes(s.skip(prefix.len() as int), prefix)
    } else {
        s
    }
}

/// Removes every leading copy of `prefix` from `s`.
pub fn strip_prefixes_chars(s: &Vec<char>, prefix: &Vec<char>) -> (res: Vec<char>)
    ensures
        res@ == strip_prefixes(s@, prefix@),
{
    let mut start: usize = 0;
    proof {
        assert(s@.skip(0) =~= s@);
    }
    while prefix.len() > 0 && prefix.len() <= s.len() - start && occurs_at_exec(s, prefix, start)
        invariant
            start <= s@.len(),
            strip_prefixes(s@, prefix@) == strip_prefixes(s@.skip(start as int), prefix@),
        decreases s.len() - start,
    {
        proof {
            let rest = s@.skip(start as int);
            assert(rest.subrange(0, prefix@.len() as int) =~= s@.subrange(
                start as int,
                start + prefix@.len(),
            ));
            assert(prefix@.is_prefix_of(rest));
            assert(rest.skip(prefix@.len() as int) =~= s@.skip(start + prefix@.len()));
        }
        start = start + prefix.len();
    }
    proof {
        let rest = s@.skip(start as int);
        if prefix@.len() > 0 && prefix@.is_prefix_of(rest) {
            assert(rest.subrange(0, prefix@.len() as int) =~= s@.subrange(
                start as int,
                start + prefix@.len(),
            ));
        }
    }
    let out = slice_chars(s, start, s.len());
    proof {
        assert(out@ =~= s@.skip(start as int));
    }
    out
}

/// `s` without leading copies of `c`.
pub open spec fn trim_start_char(s: Seq<char>, c: char) -> Seq<char>
    decreases s.len(),
{
    if s.len() > 0 && s[0] == c {
        trim_start_char(s.drop_first(), c)
    } else {
        s
    }
}

/// `s` without trailing copies of `c`.
pub open spec fn trim_end_char(s: Seq<char>, c: char) -> Seq<char>
    decreases s.len(),
{
    if s.len() > 0 && s.last() == c {
        trim_end_char(s.drop_last(), c)
    } else {
        s
    }
}

/// `s` without leading or trailing copies of `c` (`str::trim_matches`).
pub open spec fn trim_char(s: Seq<char>, c: char) -> Seq<char> {
    trim_end_char(trim_start_char(s, c), c)
}

proof fn lemma_trim_start_char_from(s: Seq<char>, c: char, i: int)
    requires
        0 <= i <= s.len(),
        forall|j: int| 0 <= j < i ==> #[trigger] s[j] == c,
    ensures
        trim_start_char(s, c) == trim_start_char(s.subrange(i, s.len() as int), c),
    decreases i,
{
    if i > 0 {
        assert(s.drop_first().subrange(i - 1, s.drop_first().len() as int) =~= s.subrange(
            i,
            s.len() as int,
        ));
        assert forall|j: int| 0 <= j < i - 1 implies #[trigger] s.drop_first()[j] == c by {
            assert(s.drop_first()[j] == s[j + 1]);
        }
        lemma_trim_start_char_from(s.drop_first(), c, i - 1);
    } else {
        assert(s.subrange(0, s.len() as int) =~= s);
    }
}

proof fn lemma_trim_end_char_to(s: Seq<char>, c: char, i: int)
    requires
        0 <= i <= s.len(),
        forall|j: int| i <= j < s.len() ==> #[trigger] s[j] == c,
    ensures
        trim_end_char(s, c) == trim_end_char(s.subrange(0, i), c),
    decreases s.len() - i,
{
    if i < s.len() {
        assert(s.drop_last().subrange(0, i) =~= s.subrange(0, i));
        assert forall|j: int| i <= j < s.drop_last().len() implies #[trigger] s.drop_last()[j]
            == c by {
            assert(s.drop_last()[j] == s[j]);
        }
        lemma_trim_end_char_to(s.drop_last(), c, i);
    } else {
        assert(s.subrange(0, s.len() as int) =~= s);
    }
}

/// `s` with leading and trailing copies of `c` removed.
pub fn trim_char_chars(s: &Vec<char>, c: char) -> (res: Vec<char>)
    ensures
        res@ == trim_char(s@, c),
{
    let mut start: usize = 0;
    while start < s.len() && s[start] == c
        invariant
            start <= s@.len(),
            forall|j: int| 0 <= j < start ==> #[trigger] s@[j] == c,
        decreases s.len() - start,
    {
        start = start + 1;
    }
    let ghost rest = s@.subrange(start as int, s@.len() as int);
    proof {
        lemma_trim_start_char_from(s@, c, start as int);
        if rest.len() > 0 {
            assert(rest[0] == s@[start as int]);
        }
        assert(trim_start_char(rest, c) == rest);
    }
    let mut end: usize = s.len();
    while end > start && s[end - 1] == c
        invariant
            start <= end <= s@.len(),
            forall|j: int| end <= j < s@.len() ==> #[trigger] s@[j] == c,
        decreases end,
    {
        end = end - 1;
    }
    let out = slice_chars(s, start, end);
    proof {
        let k = end - start;
        assert forall|j: int| k <= j < rest.len() implies #[trigger] rest[j] == c by {
            assert(rest[j] == s@[start + j]);
        }
        lemma_trim_end_char_to(rest, c, k);
        assert(rest.subrange(0, k) =~= out@);
        if k > 0 {
            assert(out@.last() == s@[end - 1]);
        }
        assert(trim_end_char(out@, c) == out@);
    }
    out
}


/// A line without the carriage return of a `\r\n` ending.
pub open spec fn without_cr(line: Seq<char>) -> Seq<char> {
    if line.len() > 0 && line.last() == '\r' {
        line.drop_last()
    } else {
        line
    }
}

/// The lines of `s` (`str::lines`): the pieces between newlines, each that a
/// newline ends without a carriage return just before it; a final newline
/// starts no empty line.
pub open spec fn lines_of(s: Seq<char>) -> Seq<Seq<char>> {
    let pieces = split_on(s, seq!['\n']);
    let ended = pieces.drop_last().map_values(|p: Seq<char>| without_cr(p));
    if pieces.last().len() == 0 {
        ended
    } else {
        ended.push(pieces.last())
    }
}

/// Splits `s` into its lines.
pub fn lines(s: &Vec<char>) -> (res: Vec<Vec<char>>)
    ensures
        texts(res@) == lines_of(s@),
{
    let seps: Vec<char> = vec!['\n'];
    proof {
        assert(seps@ =~= seq!['\n']);
        lemma_split_on_nonempty(s@, seps@);
    }
    let pieces = split_chars(s, &seps);
    let ghost ps = split_on(s@, seq!['\n']);
    let n = pieces.len();
    let mut out: Vec<Vec<char>> = Vec::new();
    let mut i: usize = 0;
    while i + 1 < n
        invariant
            n == pieces@.len(),
            n >= 1,
            texts(pieces@) == ps,
            i + 1 <= n,
            texts(out@) == ps.subrange(0, i as int).map_values(|p: Seq<char>| without_cr(p)),
        decreases n - i,
    {
        let p = &pieces[i];
        let k = p.len();
        let line = if k > 0 && p[k - 1] == '\r' {
            slice_chars(p, 0, k - 1)
        } else {
            slice_chars(p, 0, k)
        };
        proof {
            assert(ps[i as int] == pieces@[i as int]@);
            if k > 0 && p@[k - 1] == '\r' {
                assert(line@ =~= p@.drop_last());
            } else {
                assert(line@ =~= p@);
            }
        }
        let ghost before = texts(out@);
        out.push(line);
        proof {
            assert(texts(out@) =~= before.push(line@));
            assert(line@ == without_cr(ps[i as int]));
            assert(ps.subrange(0, i + 1).map_values(|p: Seq<char>| without_cr(p)) =~= ps.subrange(
                0,
                i as int,
            ).map_values(|p: Seq<char>| without_cr(p)).push(without_cr(ps[i as int])));
        }
        i = i + 1;
    }
    let last = &pieces[n - 1];
    proof {
        assert(ps.drop_last() =~= ps.subrange(0, i as int));
        assert(ps.last() == last@);
    }
    if last.len() > 0 {
        let kept = slice_chars(last, 0, last.len());
        out.push(kept);
        proof {
            assert(kept@ =~= last@);
            assert(texts(out@) =~= lines_of(s@));
        }
    } else {
        proof {
            assert(texts(out@) =~= lines_of(s@));
        }
    }
    out
}

/// Whether two texts are equal.
pub fn same_text(a: &str, b: &str) -> (res: bool)
    ensures
        res == (a@ == b@),
{
    let x = chars_of(a);
    let y = chars_of(b);
    if x.len() != y.len() {
        proof {
            assert(a@.len() != b@.len());
        }
        return false;
    }
    let mut i: usize = 0;
    while i < x.len()
        invariant
            i <= x@.len(),
            x@.len() == y@.len(),
            x@ == a@,
            y@ == b@,
            forall|j: int| 0 <= j < i ==> x@[j] == y@[j],
        decreases x.len() - i,
    {
        if x[i] != y[i] {
            proof {
                assert(a@[i as int] != b@[i as int]);
            }
            return false;
        }
        i = i + 1;
    }
    proof {
        assert(x@ =~= y@);
    }
    true
}

} // verus!
