//! Path confinement for agent file operations.
//!
//! The agent serves file requests from the network. Every path from the
//! network is resolved here first, and anything that lands outside the
//! permitted roots is refused. The filesystem is consulted only through the
//! `canonicalize` function the caller passes in.
//!
//! The checks read every path in one form: `/` separates components and a
//! leading `/` is the root. On Windows a path such as `C:\Users\me` is read
//! as the drive component `C:` under that root, and is handed back to the
//! platform in its own form (`platform_text`).

use vstd::prelude::*;
use crate::places::Platform;
use crate::text::{chars_of, split_chars, split_on, string_from, texts, trim, trim_chars};

verus! {

/// `s` with every `\` turned into `/`.
pub open spec fn unified(s: Seq<char>) -> Seq<char> {
    s.map_values(|c: char| if c == '\\' { '/' } else { c })
}

/// A drive name such as `C:`: an ASCII letter and a colon.
pub open spec fn is_drive(p: Seq<char>) -> bool {
    p.len() == 2 && p[1] == ':' && (('a' <= p[0] && p[0] <= 'z') || ('A' <= p[0] && p[0] <= 'Z'))
}

/// The text begins with a drive name.
pub open spec fn starts_with_drive(s: Seq<char>) -> bool {
    s.len() >= 2 && is_drive(s.take(2))
}

/// The platform is Windows.
pub open spec fn on_windows(platform: Platform) -> bool {
    platform == Platform::Windows
}

/// A network-supplied path in the form the checks read: `\` as `/`, and on
/// Windows a leading drive put under the root, so that `C:/a` reads as the
/// components `C:` and `a`.
pub open spec fn request_form(windows: bool, path: Seq<char>) -> Seq<char> {
    let u = unified(path);
    if windows && starts_with_drive(u) {
        seq!['/'] + u
    } else {
        u
    }
}

/// A path the platform wrote (a root, a canonical path) in the form the
/// checks read: on Windows as `request_form` reads it, elsewhere unchanged
/// (a `\` is a plain character in a POSIX file name).
pub open spec fn native_form(windows: bool, path: Seq<char>) -> Seq<char> {
    if windows {
        request_form(true, path)
    } else {
        path
    }
}

/// `s` with every `/` turned into `\`.
pub open spec fn backslashed(s: Seq<char>) -> Seq<char> {
    s.map_values(|c: char| if c == '/' { '\\' } else { c })
}

/// The text the platform is handed for a path in the checks' form: on
/// Windows the root in front of a drive is dropped, a bare drive gets its
/// root back (`C:` alone names the drive's current folder), and `/` is
/// written `\`; elsewhere the text itself.
pub open spec fn platform_text(windows: bool, s: Seq<char>) -> Seq<char> {
    if windows {
        let t = if s.len() >= 3 && s[0] == '/' && starts_with_drive(s.drop_first()) {
            s.drop_first()
        } else {
            s
        };
        backslashed(
            if is_drive(t) {
                t.push('/')
            } else {
                t
            },
        )
    } else {
        s
    }
}

/// The path is absolute: on Windows a drive followed by a separator (a
/// share path such as `\\server\share` is not taken as one), elsewhere a
/// leading separator.
pub open spec fn is_absolute(windows: bool, path: Seq<char>) -> bool {
    let u = unified(path);
    if windows {
        starts_with_drive(u) && u.len() >= 3 && u[2] == '/'
    } else {
        has_root(u)
    }
}

/// The pieces between `/` that name something: not empty and not `.`.
pub open spec fn named_pieces(pieces: Seq<Seq<char>>) -> Seq<Seq<char>>
    decreases pieces.len(),
{
    if pieces.len() == 0 {
        Seq::empty()
    } else {
        let rest = named_pieces(pieces.drop_last());
        let p = pieces.last();
        if p.len() == 0 || p == seq!['.'] {
            rest
        } else {
            rest.push(p)
        }
    }
}

/// The path starts at the root.
pub open spec fn has_root(s: Seq<char>) -> bool {
    s.len() > 0 && s[0] == '/'
}

/// A relative path that starts with a `.` component.
pub open spec fn leading_cur_dir(s: Seq<char>) -> bool {
    !has_root(s) && split_on(s, seq!['/'])[0] == seq!['.']
}

/// The components of a path after its root, as `Path::components` gives
/// them: repeated separators and `.` are dropped, except a `.` that starts a
/// relative path.
pub open spec fn path_components(s: Seq<char>) -> Seq<Seq<char>> {
    let pieces = split_on(s, seq!['/']);
    if leading_cur_dir(s) {
        seq![seq!['.']] + named_pieces(pieces.drop_first())
    } else {
        named_pieces(pieces)
    }
}

/// `Path::starts_with`: both at the root or both not, and the components of
/// `root` begin those of `candidate`.
pub open spec fn path_starts_with(candidate: Seq<char>, root: Seq<char>) -> bool {
    has_root(candidate) == has_root(root) && path_components(root).is_prefix_of(
        path_components(candidate),
    )
}

/// Applies components in order: `.` is skipped, `..` removes the last kept
/// name if there is one (it never climbs above the start), any other name is
/// kept.
pub open spec fn normalize_parts(parts: Seq<Seq<char>>) -> Seq<Seq<char>>
    decreases parts.len(),
{
    if parts.len() == 0 {
        Seq::empty()
    } else {
        let acc = normalize_parts(parts.drop_last());
        let p = parts.last();
        if p == seq!['.'] {
            acc
        } else if p == seq!['.', '.'] {
            if acc.len() > 0 {
                acc.drop_last()
            } else {
                acc
            }
        } else {
            acc.push(p)
        }
    }
}

/// The names a path comes to after lexical normalization. A drive is never
/// climbed out of: `..` right below it is dropped.
pub open spec fn normal_names(windows: bool, path: Seq<char>) -> Seq<Seq<char>> {
    let comps = path_components(request_form(windows, path));
    if windows && comps.len() > 0 && is_drive(comps[0]) {
        seq![comps[0]] + normalize_parts(comps.drop_first())
    } else {
        normalize_parts(comps)
    }
}

/// `PathBuf::join` of a plain name: a separator goes between unless the base
/// is empty or already ends with one.
pub open spec fn join_name(base: Seq<char>, name: Seq<char>) -> Seq<char> {
    if base.len() == 0 || base.last() == '/' {
        base + name
    } else {
        base + seq!['/'] + name
    }
}

/// `base` with `names` joined on one after another.
pub open spec fn join_all(base: Seq<char>, names: Seq<Seq<char>>) -> Seq<char>
    decreases names.len(),
{
    if names.len() == 0 {
        base
    } else {
        join_name(join_all(base, names.drop_last()), names.last())
    }
}

/// The text of a path from the root through `names`.
pub open spec fn rooted_text(names: Seq<Seq<char>>) -> Seq<char> {
    join_all(seq!['/'], names)
}

/// The text of a path through `names`, from the root or not.
pub open spec fn path_text(rooted: bool, names: Seq<Seq<char>>) -> Seq<char> {
    join_all(if rooted { seq!['/'] } else { Seq::empty() }, names)
}

/// A path after lexical normalization: whether it starts at the root, and
/// its names, none of them empty, `.` or `..`.
pub struct NormalPath {
    pub rooted: bool,
    pub names: Vec<Vec<char>>,
}

impl NormalPath {
    /// The names as texts.
    pub open spec fn name_texts(self) -> Seq<Seq<char>> {
        texts(self.names@)
    }
}

fn is_dot(p: &Vec<char>) -> (res: bool)
    ensures
        res == (p@ == seq!['.']),
{
    let r = p.len() == 1 && p[0] == '.';
    proof {
        if r {
            assert(p@ =~= seq!['.']);
        }
    }
    r
}

fn is_dot_dot(p: &Vec<char>) -> (res: bool)
    ensures
        res == (p@ == seq!['.', '.']),
{
    let r = p.len() == 2 && p[0] == '.' && p[1] == '.';
    proof {
        if r {
            assert(p@ =~= seq!['.', '.']);
        }
    }
    r
}

/// Replaces every `\` with `/`.
fn unify(s: &Vec<char>) -> (res: Vec<char>)
    ensures
        res@ == unified(s@),
{
    let mut out: Vec<char> = Vec::new();
    let mut i: usize = 0;
    while i < s.len()
        invariant
            i <= s@.len(),
            out@ == unified(s@.subrange(0, i as int)),
        decreases s.len() - i,
    {
        let c = s[i];
        out.push(if c == '\\' { '/' } else { c });
        proof {
            assert(unified(s@.subrange(0, i + 1)) =~= unified(s@.subrange(0, i as int)).push(
                if c == '\\' { '/' } else { c },
            ));
        }
        i = i + 1;
    }
    proof {
        assert(s@.subrange(0, s@.len() as int) =~= s@);
    }
    out
}

/// Whether the platform is Windows.
pub fn is_windows(platform: Platform) -> (res: bool)
    ensures
        res == on_windows(platform),
{
    match platform {
        Platform::Windows => true,
        _ => false,
    }
}

fn is_drive_exec(p: &Vec<char>) -> (res: bool)
    ensures
        res == is_drive(p@),
{
    p.len() == 2 && p[1] == ':' && (('a' <= p[0] && p[0] <= 'z') || ('A' <= p[0] && p[0] <= 'Z'))
}

fn starts_with_drive_exec(s: &Vec<char>) -> (res: bool)
    ensures
        res == starts_with_drive(s@),
{
    if s.len() < 2 {
        return false;
    }
    let a = s[0];
    let r = s[1] == ':' && (('a' <= a && a <= 'z') || ('A' <= a && a <= 'Z'));
    proof {
        assert(s@.take(2).len() == 2);
        assert(s@.take(2)[0] == s@[0]);
        assert(s@.take(2)[1] == s@[1]);
    }
    r
}

/// The checks' form of a network-supplied path.
fn request_form_exec(windows: bool, s: &Vec<char>) -> (res: Vec<char>)
    ensures
        res@ == request_form(windows, s@),
{
    let mut u = unify(s);
    if windows && starts_with_drive_exec(&u) {
        let mut out: Vec<char> = vec!['/'];
        assert(out@ =~= seq!['/']);
        out.append(&mut u);
        out
    } else {
        u
    }
}

/// The checks' form of a path the platform wrote.
fn native_form_exec(windows: bool, s: &Vec<char>) -> (res: Vec<char>)
    ensures
        res@ == native_form(windows, s@),
{
    if windows {
        request_form_exec(true, s)
    } else {
        s.clone()
    }
}

/// Replaces every `/` with `\`.
fn backslash(s: &Vec<char>) -> (res: Vec<char>)
    ensures
        res@ == backslashed(s@),
{
    let mut out: Vec<char> = Vec::new();
    let mut i: usize = 0;
    while i < s.len()
        invariant
            i <= s@.len(),
            out@ == backslashed(s@.subrange(0, i as int)),
        decreases s.len() - i,
    {
        let c = s[i];
        out.push(if c == '/' { '\\' } else { c });
        proof {
            assert(backslashed(s@.subrange(0, i + 1)) =~= backslashed(s@.subrange(0, i as int)).push(
                if c == '/' { '\\' } else { c },
            ));
        }
        i = i + 1;
    }
    proof {
        assert(s@.subrange(0, s@.len() as int) =~= s@);
    }
    out
}

/// The text the platform is handed for a path in the checks' form.
fn platform_text_exec(windows: bool, s: &Vec<char>) -> (res: Vec<char>)
    ensures
        res@ == platform_text(windows, s@),
{
    if !windows {
        return s.clone();
    }
    let mut t: Vec<char> = s.clone();
    if s.len() >= 3 && s[0] == '/' {
        let mut rest = s.clone();
        rest.remove(0);
        assert(rest@ =~= s@.drop_first());
        if starts_with_drive_exec(&rest) {
            t = rest;
        }
    }
    if is_drive_exec(&t) {
        t.push('/');
    }
    backslash(&t)
}

proof fn lemma_split_nonempty(s: Seq<char>)
    ensures
        split_on(s, seq!['/']).len() >= 1,
    decreases s.len(),
{
    if s.len() > 0 {
        lemma_split_nonempty(s.drop_last());
    }
}

/// The components of a path (`Path::components`, after the root).
pub(crate) fn components(s: &Vec<char>) -> (res: Vec<Vec<char>>)
    ensures
        texts(res@) == path_components(s@),
{
    let seps: Vec<char> = vec!['/'];
    assert(seps@ =~= seq!['/']);
    let pieces = split_chars(s, &seps);
    let ghost ps = texts(pieces@);
    proof {
        lemma_split_nonempty(s@);
    }
    let rooted = s.len() > 0 && s[0] == '/';
    let lead = !rooted && is_dot(&pieces[0]);
    proof {
        assert(ps[0] == pieces@[0]@);
    }
    let mut out: Vec<Vec<char>> = Vec::new();
    let start: usize = if lead {
        let dot: Vec<char> = vec!['.'];
        assert(dot@ =~= seq!['.']);
        out.push(dot);
        1
    } else {
        0
    };
    let ghost base = if lead {
        seq![seq!['.']]
    } else {
        Seq::<Seq<char>>::empty()
    };
    proof {
        assert(texts(out@) =~= base);
        assert(ps.subrange(start as int, start as int) =~= Seq::<Seq<char>>::empty());
    }
    let mut i: usize = start;
    while i < pieces.len()
        invariant
            start <= i <= pieces@.len(),
            ps == texts(pieces@),
            texts(out@) == base + named_pieces(ps.subrange(start as int, i as int)),
        decreases pieces.len() - i,
    {
        let ghost before = texts(out@);
        proof {
            let next = ps.subrange(start as int, i + 1);
            assert(next.drop_last() =~= ps.subrange(start as int, i as int));
            assert(next.last() == pieces@[i as int]@);
        }
        if pieces[i].len() > 0 && !is_dot(&pieces[i]) {
            let piece = pieces[i].clone();
            proof {
                assert(piece@ == pieces@[i as int]@);
            }
            out.push(piece);
            proof {
                assert(texts(out@) =~= before.push(piece@));
            }
        }
        i = i + 1;
    }
    proof {
        assert(ps.subrange(start as int, ps.len() as int) =~= if lead {
            ps.drop_first()
        } else {
            ps
        });
        if lead {
            assert(seq![seq!['.']] + named_pieces(ps.drop_first()) =~= base + named_pieces(
                ps.drop_first(),
            ));
        } else {
            assert(base + named_pieces(ps) =~= named_pieces(ps));
        }
    }
    out
}

/// Lexical normalization of path components.
fn normalize(parts: &Vec<Vec<char>>) -> (res: Vec<Vec<char>>)
    ensures
        texts(res@) == normalize_parts(texts(parts@)),
{
    let ghost ps = texts(parts@);
    let mut out: Vec<Vec<char>> = Vec::new();
    let mut i: usize = 0;
    proof {
        assert(ps.subrange(0, 0) =~= Seq::<Seq<char>>::empty());
        assert(texts(out@) =~= Seq::<Seq<char>>::empty());
    }
    while i < parts.len()
        invariant
            i <= parts@.len(),
            ps == texts(parts@),
            texts(out@) == normalize_parts(ps.subrange(0, i as int)),
        decreases parts.len() - i,
    {
        let ghost before = texts(out@);
        proof {
            let next = ps.subrange(0, i + 1);
            assert(next.drop_last() =~= ps.subrange(0, i as int));
            assert(next.last() == parts@[i as int]@);
        }
        if is_dot(&parts[i]) {
        } else if is_dot_dot(&parts[i]) {
            if out.len() > 0 {
                out.pop();
                proof {
                    assert(texts(out@) =~= before.drop_last());
                }
            }
        } else {
            let p = parts[i].clone();
            proof {
                assert(p@ == parts@[i as int]@);
            }
            out.push(p);
            proof {
                assert(texts(out@) =~= before.push(p@));
            }
        }
        i = i + 1;
    }
    proof {
        assert(ps.subrange(0, ps.len() as int) =~= ps);
    }
    out
}

/// The outcome of the checks that need no filesystem: a blank path is
/// refused, then a path that is not absolute.
pub open spec fn prepared(windows: bool, path: Seq<char>) -> Result<Seq<Seq<char>>, Seq<char>> {
    if trim(path).len() == 0 {
        Err("path is required"@)
    } else if !is_absolute(windows, path) {
        Err("path must be absolute"@)
    } else {
        Ok(normal_names(windows, path))
    }
}

/// Normalizes a network-supplied path: `\` is read as `/`, `.` and `..` are
/// applied without touching the filesystem, and the path must be absolute
/// on the platform.
pub fn prepare(platform: Platform, path: &str) -> (res: Result<NormalPath, String>)
    ensures
        match (res, prepared(on_windows(platform), path@)) {
            (Ok(p), Ok(names)) => p.rooted && p.name_texts() == names,
            (Err(m), Err(t)) => m@ == t,
            _ => false,
        },
{
    let windows = is_windows(platform);
    let chars = chars_of(path);
    let trimmed = trim_chars(&chars);
    if trimmed.len() == 0 {
        return Err("path is required".to_owned());
    }
    let unified_chars = unify(&chars);
    let absolute = if windows {
        starts_with_drive_exec(&unified_chars) && unified_chars.len() >= 3 && unified_chars[2] == '/'
    } else {
        unified_chars.len() > 0 && unified_chars[0] == '/'
    };
    if !absolute {
        return Err("path must be absolute".to_owned());
    }
    let form = request_form_exec(windows, &chars);
    let mut parts = components(&form);
    let ghost comps = texts(parts@);
    if windows && parts.len() > 0 && is_drive_exec(&parts[0]) {
        let drive = parts.remove(0);
        proof {
            assert(texts(parts@) =~= comps.drop_first());
            assert(drive@ == comps[0]);
        }
        let mut names = normalize(&parts);
        let ghost rest = texts(names@);
        names.insert(0, drive);
        proof {
            assert(texts(names@) =~= seq![comps[0]] + rest);
        }
        Ok(NormalPath { rooted: true, names })
    } else {
        let names = normalize(&parts);
        Ok(NormalPath { rooted: true, names })
    }
}


// ---------------------------------------------------------------------------
// Resolving against the filesystem
// ---------------------------------------------------------------------------

/// The path that the search probes at depth `k`: the first `k` components.
pub open spec fn probe_text(rooted: bool, comps: Seq<Seq<char>>, k: int) -> Seq<char> {
    path_text(rooted, comps.take(k))
}

/// The search cannot climb above depth `k`: it is the start of the path, a
/// drive on Windows (whose root has no parent), or the component before it
/// is `.` or `..` (which name no file).
pub open spec fn stops_at(windows: bool, comps: Seq<Seq<char>>, k: int) -> bool {
    k == 0 || (windows && k == 1 && is_drive(comps[0])) || comps[k - 1] == seq!['.']
        || comps[k - 1] == seq!['.', '.']
}

/// `canonicalize` can refuse every probe deeper than depth `k`.
pub open spec fn deeper_refused<F: Fn(String) -> Option<String>>(
    canonicalize: F,
    windows: bool,
    rooted: bool,
    comps: Seq<Seq<char>>,
    k: int,
) -> bool {
    forall|j: int|
        #![trigger probe_text(rooted, comps, j)]
        k < j <= comps.len() ==> exists|q: String|
            q@ == platform_text(windows, probe_text(rooted, comps, j)) && #[trigger] canonicalize.ensures(
                (q,),
                None,
            )
}

/// `res` is what the search for the deepest existing prefix can come to
/// under `canonicalize`, with each probe handed over in the platform's form:
/// the canonical form of the first `k` components,
/// with the rest joined on, where every deeper prefix is refused. Symlinks
/// anywhere in the existing part of the path are thus followed.
pub open spec fn search_found<F: Fn(String) -> Option<String>>(
    canonicalize: F,
    windows: bool,
    rooted: bool,
    comps: Seq<Seq<char>>,
    res: Seq<char>,
) -> bool {
    exists|k: int, q: String, canon: String|
        #![trigger canonicalize.ensures((q,), Some(canon)), probe_text(rooted, comps, k)]
        0 <= k <= comps.len() && q@ == platform_text(windows, probe_text(rooted, comps, k))
            && canonicalize.ensures((q,), Some(canon)) && res == join_all(
            native_form(windows, canon@),
            comps.skip(k),
        ) && deeper_refused(canonicalize, windows, rooted, comps, k)
}

/// `canonicalize` can refuse every probe down to a depth where the search
/// stops.
pub open spec fn search_failed<F: Fn(String) -> Option<String>>(
    canonicalize: F,
    windows: bool,
    rooted: bool,
    comps: Seq<Seq<char>>,
) -> bool {
    exists|k: int|
        0 <= k <= comps.len() && #[trigger] stops_at(windows, comps, k) && forall|j: int|
            #![trigger probe_text(rooted, comps, j)]
            k <= j <= comps.len() ==> exists|q: String|
                q@ == platform_text(windows, probe_text(rooted, comps, j)) && #[trigger] canonicalize.ensures(
                (q,),
                None,
            )
}

pub(crate) fn join_name_exec(base: &mut Vec<char>, name: &Vec<char>)
    ensures
        final(base)@ == join_name(old(base)@, name@),
{
    let need_sep = base.len() > 0 && base[base.len() - 1] != '/';
    if need_sep {
        base.push('/');
    }
    let mut i: usize = 0;
    let ghost start = base@;
    while i < name.len()
        invariant
            i <= name@.len(),
            base@ == start + name@.subrange(0, i as int),
        decreases name.len() - i,
    {
        base.push(name[i]);
        proof {
            assert(name@.subrange(0, i + 1) =~= name@.subrange(0, i as int).push(name@[i as int]));
        }
        i = i + 1;
    }
    proof {
        assert(name@.subrange(0, name@.len() as int) =~= name@);
        if need_sep {
            assert(start == old(base)@ + seq!['/']);
        }
    }
}

/// `base` with `comps[from..]` joined on.
fn join_from(base: Vec<char>, comps: &Vec<Vec<char>>, from: usize) -> (res: Vec<char>)
    requires
        from <= comps@.len(),
    ensures
        res@ == join_all(base@, texts(comps@).skip(from as int)),
{
    let ghost cs = texts(comps@);
    let mut out = base;
    let mut i: usize = from;
    proof {
        assert(cs.skip(from as int).take(0) =~= Seq::<Seq<char>>::empty());
    }
    while i < comps.len()
        invariant
            from <= i <= comps@.len(),
            cs == texts(comps@),
            out@ == join_all(base@, cs.skip(from as int).take(i - from)),
        decreases comps.len() - i,
    {
        proof {
            let t = cs.skip(from as int).take(i + 1 - from);
            assert(t.drop_last() =~= cs.skip(from as int).take(i - from));
            assert(t.last() == comps@[i as int]@);
        }
        join_name_exec(&mut out, &comps[i]);
        i = i + 1;
    }
    proof {
        assert(cs.skip(from as int).take(comps@.len() - from) =~= cs.skip(from as int));
    }
    out
}

/// The text of the first `k` components.
fn probe_exec(rooted: bool, comps: &Vec<Vec<char>>, k: usize) -> (res: Vec<char>)
    requires
        k <= comps@.len(),
    ensures
        res@ == probe_text(rooted, texts(comps@), k as int),
{
    let base: Vec<char> = if rooted {
        vec!['/']
    } else {
        Vec::new()
    };
    proof {
        if rooted {
            assert(base@ =~= seq!['/']);
        } else {
            assert(base@ =~= Seq::<char>::empty());
        }
    }
    let mut out = base;
    let mut i: usize = 0;
    let ghost cs = texts(comps@);
    proof {
        assert(cs.take(0) =~= Seq::<Seq<char>>::empty());
    }
    while i < k
        invariant
            i <= k <= comps@.len(),
            cs == texts(comps@),
            out@ == join_all(base@, cs.take(i as int)),
        decreases k - i,
    {
        proof {
            assert(cs.take(i + 1).drop_last() =~= cs.take(i as int));
            assert(cs.take(i + 1).last() == comps@[i as int]@);
        }
        join_name_exec(&mut out, &comps[i]);
        i = i + 1;
    }
    out
}

/// Canonicalizes as much of a path as exists, keeping the rest verbatim:
/// probes the whole path, then ever shorter prefixes, and joins the missing
/// components back onto the first canonical prefix found. Needed for
/// uploads, whose target file does not exist yet.
fn existing_prefix<F: Fn(String) -> Option<String>>(
    windows: bool,
    rooted: bool,
    comps: &Vec<Vec<char>>,
    canonicalize: &F,
) -> (res: Option<Vec<char>>)
    requires
        forall|q: String| #[trigger] canonicalize.requires((q,)),
    ensures
        match res {
            Some(r) => search_found(*canonicalize, windows, rooted, texts(comps@), r@),
            None => search_failed(*canonicalize, windows, rooted, texts(comps@)),
        },
{
    let ghost cs = texts(comps@);
    let n = comps.len();
    let mut k: usize = n;
    loop
        invariant
            k <= n == comps@.len(),
            cs == texts(comps@),
            forall|q: String| #[trigger] canonicalize.requires((q,)),
            cs.len() == n,
            deeper_refused(*canonicalize, windows, rooted, cs, k as int),
        decreases k,
    {
        let probe = probe_exec(rooted, comps, k);
        let q = string_from(&platform_text_exec(windows, &probe));
        let ghost qg = q;
        match canonicalize(q) {
            Some(canon) => {
                let canon_chars = native_form_exec(windows, &chars_of(canon.as_str()));
                let res = join_from(canon_chars, comps, k);
                proof {
                    assert(canonicalize.ensures((qg,), Some(canon)));
                    assert(qg@ == platform_text(windows, probe_text(rooted, cs, k as int)));
                    assert(deeper_refused(*canonicalize, windows, rooted, cs, k as int));
                }
                return Some(res);
            },
            None => {
                proof {
                    assert(canonicalize.ensures((qg,), None));
                    assert forall|j: int| #![trigger probe_text(rooted, cs, j)] k <= j <= n implies exists|q: String|
                        q@ == platform_text(windows, probe_text(rooted, cs, j))
                            && #[trigger] canonicalize.ensures((q,), None) by {
                        if j == k {
                            assert(qg@ == platform_text(windows, probe_text(rooted, cs, j)));
                        }
                    }
                }
                let stop = k == 0 || (windows && k == 1 && is_drive_exec(&comps[0])) || is_dot(
                    &comps[k - 1],
                ) || is_dot_dot(&comps[k - 1]);
                if stop {
                    proof {
                        if k > 0 {
                            assert(cs[k - 1] == comps@[k - 1]@);
                            assert(cs[0] == comps@[0]@);
                        }
                        assert(stops_at(windows, cs, k as int));
                    }
                    return None;
                }
                k = k - 1;
            },
        }
    }
}

/// Whether `candidate` starts with `root`, component by component.
fn starts_with_path(candidate: &Vec<char>, root: &Vec<char>) -> (res: bool)
    ensures
        res == path_starts_with(candidate@, root@),
{
    let c_rooted = candidate.len() > 0 && candidate[0] == '/';
    let r_rooted = root.len() > 0 && root[0] == '/';
    if c_rooted != r_rooted {
        return false;
    }
    let cc = components(candidate);
    let rc = components(root);
    let ghost tc = texts(cc@);
    let ghost tr = texts(rc@);
    if rc.len() > cc.len() {
        assert(tr.len() > tc.len());
        return false;
    }
    let mut i: usize = 0;
    while i < rc.len()
        invariant
            i <= rc@.len() <= cc@.len(),
            tc == texts(cc@),
            tr == texts(rc@),
            tc == path_components(candidate@),
            tr == path_components(root@),
            c_rooted == has_root(candidate@),
            r_rooted == has_root(root@),
            c_rooted == r_rooted,
            forall|j: int| 0 <= j < i ==> rc@[j]@ == cc@[j]@,
        decreases rc.len() - i,
    {
        let a = &rc[i];
        let b = &cc[i];
        proof {
            assert(tr[i as int] == a@ && tc[i as int] == b@);
        }
        if a.len() != b.len() {
            proof {
                if tr.is_prefix_of(tc) {
                    assert(tc.subrange(0, tr.len() as int)[i as int] == tc[i as int]);
                }
            }
            return false;
        }
        let mut k: usize = 0;
        while k < a.len()
            invariant
                k <= a@.len() == b@.len(),
                forall|j: int| 0 <= j < k ==> a@[j] == b@[j],
                i < rc@.len() <= cc@.len(),
                tc == texts(cc@),
                tr == texts(rc@),
                tc == path_components(candidate@),
                tr == path_components(root@),
                tr[i as int] == a@,
                tc[i as int] == b@,
                c_rooted == has_root(candidate@),
                r_rooted == has_root(root@),
                c_rooted == r_rooted,
            decreases a.len() - k,
        {
            if a[k] != b[k] {
                proof {
                    if tr.is_prefix_of(tc) {
                        assert(tc.subrange(0, tr.len() as int)[i as int] == tc[i as int]);
                        assert(a@[k as int] == b@[k as int]);
                    }
                }
                return false;
            }
            k = k + 1;
        }
        assert(a@ =~= b@);
        i = i + 1;
    }
    proof {
        assert(texts(rc@) =~= texts(cc@).subrange(0, rc@.len() as int));
    }
    true
}

/// The refusal for a path outside every root. Deliberately vague: a precise
/// answer would let a caller map the filesystem by probing.
pub open spec fn outside_message() -> Seq<char> {
    "path is outside the folders NodeDesk shares"@
}

/// Whether the path `c` lies under the canonical form of `root`, as the
/// search under `canonicalize` can find it.
pub open spec fn under_root<F: Fn(String) -> Option<String>>(
    canonicalize: F,
    windows: bool,
    root: Seq<char>,
    c: Seq<char>,
) -> bool {
    let form = native_form(windows, root);
    exists|r: Seq<char>|
        search_found(canonicalize, windows, has_root(form), path_components(form), r)
            && path_starts_with(c, r)
}

/// `root` does not hold `c`, as `canonicalize` may answer: its search fails,
/// or finds a canonical root that `c` does not start with.
pub open spec fn not_under_root<F: Fn(String) -> Option<String>>(
    canonicalize: F,
    windows: bool,
    root: Seq<char>,
    c: Seq<char>,
) -> bool {
    let form = native_form(windows, root);
    search_failed(canonicalize, windows, has_root(form), path_components(form)) || exists|
        r: Seq<char>,
    |
        search_found(canonicalize, windows, has_root(form), path_components(form), r)
            && !path_starts_with(c, r)
}

/// The text of a result of strings.
pub open spec fn result_text(r: Result<String, String>) -> Result<Seq<char>, Seq<char>> {
    match r {
        Ok(c) => Ok(c@),
        Err(m) => Err(m@),
    }
}

/// What resolving `path` against `roots` can come to under
/// `canonicalize`: the checks that need no filesystem first; then a
/// canonical path found by the deepest-prefix search that lies under some
/// root; else "not reachable" when the search fails, or the refusal when
/// the path it finds lies under no root.
pub open spec fn resolve_outcome<F: Fn(String) -> Option<String>>(
    canonicalize: F,
    windows: bool,
    path: Seq<char>,
    roots: Seq<Seq<char>>,
    res: Result<Seq<char>, Seq<char>>,
) -> bool {
    match prepared(windows, path) {
        Err(t) => res == Err::<Seq<char>, Seq<char>>(t),
        Ok(names) => match res {
            Ok(c) => resolved_under(canonicalize, windows, names, roots, c),
            Err(m) => refused_for(canonicalize, windows, names, roots, m),
        },
    }
}

/// `c` is, in the platform's form, what the deepest-prefix search finds for
/// `names`, and that lies under one of `roots`.
pub open spec fn resolved_under<F: Fn(String) -> Option<String>>(
    canonicalize: F,
    windows: bool,
    names: Seq<Seq<char>>,
    roots: Seq<Seq<char>>,
    c: Seq<char>,
) -> bool {
    exists|r: Seq<char>|
        #![trigger search_found(canonicalize, windows, true, names, r)]
        c == platform_text(windows, r) && search_found(canonicalize, windows, true, names, r)
            && exists|i: int|
            0 <= i < roots.len() && #[trigger] under_root(canonicalize, windows, roots[i], r)
}

/// `m` is the refusal due for `names`: "not reachable" when the search
/// fails, or the refusal when what it finds lies under no root.
pub open spec fn refused_for<F: Fn(String) -> Option<String>>(
    canonicalize: F,
    windows: bool,
    names: Seq<Seq<char>>,
    roots: Seq<Seq<char>>,
    m: Seq<char>,
) -> bool {
    (m == "path is not reachable"@ && search_failed(canonicalize, windows, true, names)) || (m
        == outside_message() && exists|c: Seq<char>|
        search_found(canonicalize, windows, true, names, c) && forall|i: int|
            0 <= i < roots.len() ==> #[trigger] not_under_root(canonicalize, windows, roots[i], c))
}

/// Resolves a network-supplied path against `roots`, consulting the
/// filesystem only through `canonicalize` (which returns the canonical form
/// of an existing path). Returns the canonical path in the platform's form:
/// symlinks are followed before the check, so a link inside a root that
/// points outside it is refused.
pub fn resolve<F: Fn(String) -> Option<String>>(
    platform: Platform,
    path: &str,
    roots: &[String],
    canonicalize: &F,
) -> (res: Result<String, String>)
    requires
        forall|q: String| #[trigger] canonicalize.requires((q,)),
    ensures
        prepared(on_windows(platform), path@) matches Err(t) ==> res matches Err(m) && m@ == t,
        resolve_outcome(
            *canonicalize,
            on_windows(platform),
            path@,
            texts_of_strings(roots@),
            result_text(res),
        ),
{
    let windows = is_windows(platform);
    let normal = match prepare(platform, path) {
        Ok(p) => p,
        Err(m) => {
            return Err(m);
        },
    };
    let candidate = match existing_prefix(windows, true, &normal.names, canonicalize) {
        Some(c) => c,
        None => {
            return Err("path is not reachable".to_owned());
        },
    };
    let ghost names = normal.name_texts();
    let ghost rts = texts_of_strings(roots@);
    let mut i: usize = 0;
    while i < roots.len()
        invariant
            i <= roots@.len(),
            rts == texts_of_strings(roots@),
            windows == on_windows(platform),
            prepared(windows, path@) == Ok::<Seq<Seq<char>>, Seq<char>>(names),
            search_found(*canonicalize, windows, true, names, candidate@),
            forall|q: String| #[trigger] canonicalize.requires((q,)),
            forall|j: int| 0 <= j < i ==> #[trigger] not_under_root(*canonicalize, windows, rts[j], candidate@),
        decreases roots.len() - i,
    {
        let root_chars = native_form_exec(windows, &chars_of(roots[i].as_str()));
        let rooted = root_chars.len() > 0 && root_chars[0] == '/';
        let root_comps = components(&root_chars);
        proof {
            assert(rts[i as int] == roots@[i as int]@);
        }
        match existing_prefix(windows, rooted, &root_comps, canonicalize) {
            Some(canon_root) => {
                if starts_with_path(&candidate, &canon_root) {
                    let out = string_from(&platform_text_exec(windows, &candidate));
                    proof {
                        assert(under_root(*canonicalize, windows, rts[i as int], candidate@));
                        assert(resolved_under(*canonicalize, windows, names, rts, out@));
                    }
                    return Ok(out);
                }
                proof {
                    assert(not_under_root(*canonicalize, windows, rts[i as int], candidate@));
                }
            },
            None => {
                proof {
                    assert(not_under_root(*canonicalize, windows, rts[i as int], candidate@));
                }
            },
        }
        i = i + 1;
    }
    proof {
        assert(refused_for(*canonicalize, windows, names, rts, outside_message()));
    }
    Err("path is outside the folders NodeDesk shares".to_owned())
}

// ---------------------------------------------------------------------------
// Names, folders and roots
// ---------------------------------------------------------------------------

/// `Path::file_name` on the platform: the last component, unless there is
/// none, it is `.` or `..`, or (on Windows) it is the drive itself.
pub open spec fn file_name_of(windows: bool, path: Seq<char>) -> Option<Seq<char>> {
    let c = path_components(native_form(windows, path));
    if c.len() > 0 && c.last() != seq!['.', '.'] && c.last() != seq!['.'] && !(windows && c.len()
        == 1 && is_drive(c[0])) {
        Some(c.last())
    } else {
        None
    }
}

/// The file name of a path, as the platform reads it.
pub fn file_name(platform: Platform, path: &str) -> (res: Option<String>)
    ensures
        match file_name_of(on_windows(platform), path@) {
            Some(n) => res matches Some(r) && r@ == n,
            None => res is None,
        },
{
    let windows = is_windows(platform);
    let comps = components(&native_form_exec(windows, &chars_of(path)));
    let n = comps.len();
    if n == 0 {
        return None;
    }
    proof {
        assert(texts(comps@).last() == comps@[n - 1]@);
        assert(texts(comps@)[0] == comps@[0]@);
    }
    let last = &comps[n - 1];
    if is_dot_dot(last) || is_dot(last) || (windows && n == 1 && is_drive_exec(&comps[0])) {
        return None;
    }
    Some(string_from(last))
}

/// `base` with `name` joined on (`PathBuf::join` of a plain name).
pub fn join(base: &str, name: &str) -> (res: String)
    ensures
        res@ == join_name(base@, name@),
{
    let mut b = chars_of(base);
    join_name_exec(&mut b, &chars_of(name));
    string_from(&b)
}

/// The folder uploads land in: the configured one, else `NodeDesk-Incoming`
/// in the home folder (or in the current folder when there is no home).
pub open spec fn incoming_dir_text(configured: Option<Seq<char>>, home: Option<Seq<char>>) -> Seq<char> {
    match configured {
        Some(d) => d,
        None => join_name(
            match home {
                Some(h) => h,
                None => seq!['.'],
            },
            "NodeDesk-Incoming"@,
        ),
    }
}

/// The optional text of an optional string.
pub open spec fn opt_text(s: Option<String>) -> Option<Seq<char>> {
    match s {
        Some(t) => Some(t@),
        None => None,
    }
}

/// The incoming folder, given the configured one and the home folder.
pub fn incoming_dir_from(configured: Option<String>, home: Option<String>) -> (res: String)
    ensures
        res@ == incoming_dir_text(opt_text(configured), opt_text(home)),
{
    match configured {
        Some(d) => d,
        None => {
            let base = match home {
                Some(h) => h,
                None => {
                    proof {
                        reveal_strlit(".");
                    }
                    ".".to_owned()
                },
            };
            join(base.as_str(), "NodeDesk-Incoming")
        },
    }
}

/// The incoming folder: the configured one (`NODEDESK_INCOMING_DIR`), else
/// under the home folder, which is looked up only then.
pub fn incoming_dir(configured: Option<String>) -> (res: String)
    ensures
        configured matches Some(d) ==> res@ == d@,
        configured is None ==> exists|home: Option<Seq<char>>| res@ == incoming_dir_text(None, home),
        exists|home: Option<Seq<char>>| res@ == #[trigger] incoming_dir_text(opt_text(configured), home),
{
    match configured {
        Some(d) => {
            proof {
                assert(d@ == incoming_dir_text(Some(d@), None));
            }
            d
        },
        None => {
            let home = crate::places::home_dir();
            let r = incoming_dir_from(None, home);
            proof {
                assert(r@ == incoming_dir_text(None, opt_text(home)));
                assert(r@ == incoming_dir_text(opt_text(configured), opt_text(home)));
            }
            r
        },
    }
}

/// The folder downloads land in: `NodeDesk` under the configured folder,
/// else under the platform's download folder, else under the home folder.
pub open spec fn download_dir_text(
    configured: Option<Seq<char>>,
    downloads: Option<Seq<char>>,
    home: Option<Seq<char>>,
) -> Option<Seq<char>> {
    let base = match configured {
        Some(d) => Some(d),
        None => match downloads {
            Some(d) => Some(d),
            None => home,
        },
    };
    match base {
        Some(b) => Some(join_name(b, "NodeDesk"@)),
        None => None,
    }
}

/// The download folder, given the folders it may be under.
pub fn download_dir_from(configured: Option<String>, downloads: Option<String>, home: Option<String>) -> (res: Option<String>)
    ensures
        opt_text(res) == download_dir_text(opt_text(configured), opt_text(downloads), opt_text(home)),
{
    let base = match configured {
        Some(d) => Some(d),
        None => match downloads {
            Some(d) => Some(d),
            None => home,
        },
    };
    match base {
        Some(b) => Some(join(b.as_str(), "NodeDesk")),
        None => None,
    }
}

/// The download folder (`NODEDESK_DOWNLOAD_DIR` when configured). The
/// platform's folders are looked up only when needed.
pub fn download_dir(configured: Option<String>) -> (res: Option<String>)
    ensures
        configured matches Some(d) ==> res matches Some(r) && r@ == join_name(d@, "NodeDesk"@),
        configured is None ==> exists|downloads: Option<Seq<char>>, home: Option<Seq<char>>|
            opt_text(res) == download_dir_text(None, downloads, home),
        exists|downloads: Option<Seq<char>>, home: Option<Seq<char>>|
            opt_text(res) == #[trigger] download_dir_text(opt_text(configured), downloads, home),
{
    match configured {
        Some(d) => {
            let ghost dt = d@;
            let r = download_dir_from(Some(d), None, None);
            proof {
                assert(opt_text(r) == download_dir_text(Some(dt), None, None));
            }
            r
        },
        None => {
            let downloads = crate::places::download_dir();
            let home = match downloads {
                Some(_) => None,
                None => crate::places::home_dir(),
            };
            let r = download_dir_from(None, downloads, home);
            proof {
                assert(opt_text(r) == download_dir_text(None, opt_text(downloads), opt_text(home)));
            }
            r
        },
    }
}

/// The roots that may be listed, stat'd or downloaded from: the home
/// folder, the incoming folder and the download folder, those that exist.
pub open spec fn read_root_texts(home: Option<Seq<char>>, incoming: Seq<char>, downloads: Option<Seq<char>>) -> Seq<Seq<char>> {
    let with_home = match home {
        Some(h) => seq![h],
        None => Seq::empty(),
    };
    let with_incoming = with_home.push(incoming);
    match downloads {
        Some(d) => with_incoming.push(d),
        None => with_incoming,
    }
}

/// The read roots, given the folders.
pub fn read_roots_from(home: Option<String>, incoming: String, downloads: Option<String>) -> (res: Vec<String>)
    ensures
        texts_of_strings(res@) == read_root_texts(opt_text(home), incoming@, opt_text(downloads)),
{
    let mut roots: Vec<String> = Vec::new();
    match home {
        Some(h) => roots.push(h),
        None => {},
    }
    roots.push(incoming);
    match downloads {
        Some(d) => roots.push(d),
        None => {},
    }
    proof {
        assert(texts_of_strings(roots@) =~= read_root_texts(opt_text(home), incoming@, opt_text(downloads)));
    }
    roots
}

/// The texts of a list of strings.
pub open spec fn texts_of_strings(v: Seq<String>) -> Seq<Seq<char>> {
    v.map_values(|s: String| s@)
}

/// The read roots for the configured transfer folders, whatever home and
/// download folders the platform reports: the home folder, the incoming
/// folder and the download folder.
pub open spec fn possible_read_roots(
    roots: Seq<Seq<char>>,
    incoming_configured: Option<Seq<char>>,
    download_configured: Option<Seq<char>>,
) -> bool {
    exists|home: Option<Seq<char>>, h2: Option<Seq<char>>, dl: Option<Seq<char>>, h3: Option<Seq<char>>|
        roots == #[trigger] read_root_texts(
            home,
            incoming_dir_text(incoming_configured, h2),
            download_dir_text(download_configured, dl, h3),
        )
}

/// The roots reads may come from, with the transfer folders as configured.
pub fn read_roots(incoming_configured: Option<String>, download_configured: Option<String>) -> (res: Vec<String>)
    ensures
        exists|home: Option<Seq<char>>, incoming: Seq<char>, downloads: Option<Seq<char>>|
            texts_of_strings(res@) == read_root_texts(home, incoming, downloads),
        possible_read_roots(texts_of_strings(res@), opt_text(incoming_configured), opt_text(download_configured)),
{
    let ghost ic = opt_text(incoming_configured);
    let ghost dc = opt_text(download_configured);
    let home = crate::places::home_dir();
    let incoming = incoming_dir(incoming_configured);
    let downloads = download_dir(download_configured);
    let ghost (h, i, d) = (opt_text(home), incoming@, opt_text(downloads));
    let ghost h2 = choose|h2: Option<Seq<char>>| i == #[trigger] incoming_dir_text(ic, h2);
    let ghost (dl, h3) = choose|dl: Option<Seq<char>>, h3: Option<Seq<char>>|
        d == #[trigger] download_dir_text(dc, dl, h3);
    let r = read_roots_from(home, incoming, downloads);
    proof {
        assert(texts_of_strings(r@) == read_root_texts(h, i, d));
        assert(texts_of_strings(r@) == read_root_texts(
            h,
            incoming_dir_text(ic, h2),
            download_dir_text(dc, dl, h3),
        ));
    }
    r
}

/// The only root an upload may write into: the incoming folder.
pub fn write_roots(incoming: String) -> (res: Vec<String>)
    ensures
        texts_of_strings(res@) == seq![incoming@],
{
    let roots = vec![incoming];
    proof {
        assert(texts_of_strings(roots@) =~= seq![roots@[0]@]);
    }
    roots
}

/// Resolves a path for listing, stat or download: against the read roots.
pub fn resolve_read<F: Fn(String) -> Option<String>>(
    platform: Platform,
    path: &str,
    incoming_configured: Option<String>,
    download_configured: Option<String>,
    canonicalize: &F,
) -> (res: Result<String, String>)
    requires
        forall|q: String| #[trigger] canonicalize.requires((q,)),
    ensures
        prepared(on_windows(platform), path@) matches Err(t) ==> res matches Err(m) && m@ == t,
        exists|roots: Seq<Seq<char>>|
            #[trigger] possible_read_roots(
                roots,
                opt_text(incoming_configured),
                opt_text(download_configured),
            ) && resolve_outcome(*canonicalize, on_windows(platform), path@, roots, result_text(res)),
{
    let ghost ic = opt_text(incoming_configured);
    let ghost dc = opt_text(download_configured);
    let roots = read_roots(incoming_configured, download_configured);
    let res = resolve(platform, path, roots.as_slice(), canonicalize);
    proof {
        assert(possible_read_roots(texts_of_strings(roots@), ic, dc));
    }
    res
}

/// The folder a listing request names: the home folder for an empty path
/// (an error when there is none), else the path resolved against the read
/// roots.
pub fn listing_dir<F: Fn(String) -> Option<String>>(
    platform: Platform,
    path: &str,
    incoming_configured: Option<String>,
    download_configured: Option<String>,
    canonicalize: &F,
) -> (res: Result<String, String>)
    requires
        forall|q: String| #[trigger] canonicalize.requires((q,)),
    ensures
        path@.len() == 0 ==> (res matches Err(m) ==> m@ == "no home directory"@),
        path@.len() > 0 ==> (prepared(on_windows(platform), path@) matches Err(t) ==> res matches Err(
            m,
        ) && m@ == t),
        path@.len() > 0 ==> exists|roots: Seq<Seq<char>>|
            #[trigger] possible_read_roots(
                roots,
                opt_text(incoming_configured),
                opt_text(download_configured),
            ) && resolve_outcome(*canonicalize, on_windows(platform), path@, roots, result_text(res)),
{
    if path.is_empty() {
        match crate::places::home_dir() {
            Some(h) => Ok(h),
            None => Err("no home directory".to_owned()),
        }
    } else {
        resolve_read(platform, path, incoming_configured, download_configured, canonicalize)
    }
}

// ---------------------------------------------------------------------------
// Laws
// ---------------------------------------------------------------------------

proof fn lemma_normalized_names_are_plain(parts: Seq<Seq<char>>)
    requires
        forall|i: int| 0 <= i < parts.len() ==> (#[trigger] parts[i]).len() > 0,
    ensures
        forall|i: int|
            0 <= i < normalize_parts(parts).len() ==> {
                let p = #[trigger] normalize_parts(parts)[i];
                p.len() > 0 && p != seq!['.'] && p != seq!['.', '.']
            },
    decreases parts.len(),
{
    if parts.len() > 0 {
        let acc = normalize_parts(parts.drop_last());
        assert forall|i: int| 0 <= i < parts.drop_last().len() implies (
        #[trigger] parts.drop_last()[i]).len() > 0 by {
            assert(parts.drop_last()[i] == parts[i]);
        }
        lemma_normalized_names_are_plain(parts.drop_last());
        let res = normalize_parts(parts);
        assert forall|i: int| 0 <= i < res.len() implies {
            let p = #[trigger] res[i];
            p.len() > 0 && p != seq!['.'] && p != seq!['.', '.']
        } by {
            if i < acc.len() {
                assert(res[i] == acc[i]);
            } else {
                assert(res[i] == parts.last());
            }
        }
    }
}

proof fn lemma_named_pieces_nonempty(pieces: Seq<Seq<char>>)
    ensures
        forall|i: int| 0 <= i < named_pieces(pieces).len() ==> (#[trigger] named_pieces(pieces)[i]).len() > 0,
    decreases pieces.len(),
{
    if pieces.len() > 0 {
        lemma_named_pieces_nonempty(pieces.drop_last());
        let rest = named_pieces(pieces.drop_last());
        let res = named_pieces(pieces);
        assert forall|i: int| 0 <= i < res.len() implies (#[trigger] res[i]).len() > 0 by {
            if i < rest.len() {
                assert(res[i] == rest[i]);
            }
        }
    }
}

/// Normalization leaves only plain names: no empty name, no `.` and no `..`
/// survives, so no traversal remains in a prepared path, whichever separator
/// it was written with and on whichever platform.
pub proof fn normalized_paths_have_no_traversal(windows: bool, path: Seq<char>)
    ensures
        forall|i: int|
            0 <= i < normal_names(windows, path).len() ==> {
                let p = #[trigger] normal_names(windows, path)[i];
                p.len() > 0 && p != seq!['.'] && p != seq!['.', '.']
            },
{
    let u = request_form(windows, path);
    let pieces = split_on(u, seq!['/']);
    lemma_named_pieces_nonempty(pieces);
    lemma_named_pieces_nonempty(pieces.drop_first());
    let comps = path_components(u);
    assert forall|i: int| 0 <= i < comps.len() implies (#[trigger] comps[i]).len() > 0 by {
        if leading_cur_dir(u) {
            if i > 0 {
                assert(comps[i] == named_pieces(pieces.drop_first())[i - 1]);
            }
        }
    }
    if windows && comps.len() > 0 && is_drive(comps[0]) {
        let rest = comps.drop_first();
        assert forall|i: int| 0 <= i < rest.len() implies (#[trigger] rest[i]).len() > 0 by {
            assert(rest[i] == comps[i + 1]);
        }
        lemma_normalized_names_are_plain(rest);
        let names = normal_names(windows, path);
        let tail = normalize_parts(rest);
        assert(names == seq![comps[0]] + tail);
        assert forall|i: int| 0 <= i < names.len() implies {
            let p = #[trigger] names[i];
            p.len() > 0 && p != seq!['.'] && p != seq!['.', '.']
        } by {
            if i == 0 {
                assert(names[0] == comps[0]);
                assert(comps[0].len() == 2);
            } else {
                assert(names[i] == tail[i - 1]);
            }
        }
    } else {
        lemma_normalized_names_are_plain(comps);
    }
}

/// Every path starts with itself, component by component.
pub proof fn path_starts_with_itself(c: Seq<char>)
    ensures
        path_starts_with(c, c),
{
    let pc = path_components(c);
    assert(pc.subrange(0, pc.len() as int) =~= pc);
}

/// A root holds its own canonical form: a path that comes to what the
/// search finds for the root itself lies under that root, so a shared
/// folder can itself be listed.
pub proof fn a_root_holds_itself<F: Fn(String) -> Option<String>>(
    canonicalize: F,
    windows: bool,
    root: Seq<char>,
    r: Seq<char>,
)
    requires
        search_found(
            canonicalize,
            windows,
            has_root(native_form(windows, root)),
            path_components(native_form(windows, root)),
            r,
        ),
    ensures
        under_root(canonicalize, windows, root, r),
{
    path_starts_with_itself(r);
}

/// Resolving a path that comes to a root's own canonical form, against that
/// root, may answer with that path: it is not refused as outside.
pub proof fn resolving_a_root_itself_is_allowed<F: Fn(String) -> Option<String>>(
    canonicalize: F,
    windows: bool,
    path: Seq<char>,
    root: Seq<char>,
    names: Seq<Seq<char>>,
    c: Seq<char>,
)
    requires
        prepared(windows, path) == Ok::<Seq<Seq<char>>, Seq<char>>(names),
        search_found(canonicalize, windows, true, names, c),
        search_found(
            canonicalize,
            windows,
            has_root(native_form(windows, root)),
            path_components(native_form(windows, root)),
            c,
        ),
    ensures
        resolve_outcome(
            canonicalize,
            windows,
            path,
            seq![root],
            Ok::<Seq<char>, Seq<char>>(platform_text(windows, c)),
        ),
{
    a_root_holds_itself(canonicalize, windows, root, c);
    assert(seq![root][0] == root);
    assert(resolved_under(canonicalize, windows, names, seq![root], platform_text(windows, c)));
}

} // verus!
