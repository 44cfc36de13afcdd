use vstd::prelude::*;
use crate::order::lex_lt;

verus! {

/// Path separator byte, `/`.
pub const SLASH: u8 = 47;

/// Line feed byte; the configuration document is line oriented, so stored
/// paths must not contain it.
pub const NL: u8 = 10;

/// Dot byte, `.`.
pub const DOT: u8 = 46;

pub open spec fn is_abs(p: Seq<u8>) -> bool {
    p.len() > 0 && p[0] == SLASH
}

pub open spec fn has_no_newline(p: Seq<u8>) -> bool {
    forall|i: int| 0 <= i < p.len() ==> p[i] != NL
}

/// An absolute path without a trailing separator (the root `/` alone is its
/// own normal form).
pub open spec fn is_normalized(p: Seq<u8>) -> bool {
    is_abs(p) && (p.len() == 1 || p[p.len() - 1] != SLASH)
}

/// What the configuration may hold as a directory path.
pub open spec fn valid_dir_path(p: Seq<u8>) -> bool {
    is_normalized(p) && has_no_newline(p)
}

/// The normal form of an absolute path: trailing separators stripped.
pub open spec fn normal_form(p: Seq<u8>) -> Seq<u8>
    decreases p.len(),
{
    if p.len() <= 1 {
        p
    } else if p[p.len() - 1] == SLASH {
        normal_form(p.drop_last())
    } else {
        p
    }
}

pub proof fn lemma_normal_form_valid(p: Seq<u8>)
    requires
        is_abs(p),
        has_no_newline(p),
    ensures
        valid_dir_path(normal_form(p)),
    decreases p.len(),
{
    if p.len() > 1 && p[p.len() - 1] == SLASH {
        lemma_normal_form_valid(p.drop_last());
    }
}

/// Strips trailing separators from an absolute path.
pub fn normalize(path: Vec<u8>) -> (r: Vec<u8>)
    ensures
        r@ == normal_form(path@),
{
    let mut p = path;
    while p.len() > 1 && p[p.len() - 1] == SLASH
        invariant
            normal_form(p@) == normal_form(path@),
        decreases p@.len(),
    {
        let _ = p.pop();
    }
    p
}

/// Appends the bytes of `src` to `dst`.
pub fn push_all(dst: &mut Vec<u8>, src: &Vec<u8>)
    ensures
        final(dst)@ == old(dst)@ + src@,
{
    let mut i: usize = 0;
    while i < src.len()
        invariant
            0 <= i <= src@.len(),
            dst@ == old(dst)@ + src@.take(i as int),
        decreases src@.len() - i,
    {
        dst.push(src[i]);
        assert(old(dst)@ + src@.take(i as int + 1) =~= (old(dst)@ + src@.take(i as int)).push(
            src@[i as int],
        ));
        i = i + 1;
    }
    assert(src@.take(src@.len() as int) =~= src@);
}

/// `dir` and a file name joined with a single separator.
pub open spec fn joined(dir: Seq<u8>, name: Seq<u8>) -> Seq<u8> {
    dir + seq![SLASH] + name
}

pub fn join_path(dir: &Vec<u8>, name: &Vec<u8>) -> (r: Vec<u8>)
    ensures
        r@ == joined(dir@, name@),
{
    let mut r: Vec<u8> = Vec::new();
    push_all(&mut r, dir);
    r.push(SLASH);
    push_all(&mut r, name);
    assert(r@ =~= joined(dir@, name@));
    r
}

/// ASCII lower casing of one byte.
pub open spec fn lower(b: u8) -> u8 {
    if 65 <= b <= 90 {
        (b + 32) as u8
    } else {
        b
    }
}

pub fn lower_byte(b: u8) -> (r: u8)
    ensures
        r == lower(b),
{
    if 65 <= b && b <= 90 {
        b + 32
    } else {
        b
    }
}

/// A candidate plugin module: a name with the plugin suffix `.dll`, compared
/// case-insensitively, with a non-empty stem.
pub open spec fn is_plugin_name(n: Seq<u8>) -> bool {
    &&& n.len() > 4
    &&& n[n.len() - 4] == DOT
    &&& lower(n[n.len() - 3]) == 100
    &&& lower(n[n.len() - 2]) == 108
    &&& lower(n[n.len() - 1]) == 108
}

pub fn check_plugin_name(n: &Vec<u8>) -> (r: bool)
    ensures
        r == is_plugin_name(n@),
{
    if n.len() <= 4 {
        return false;
    }
    let l = n.len();
    n[l - 4] == DOT && lower_byte(n[l - 3]) == 100 && lower_byte(n[l - 2]) == 108 && lower_byte(
        n[l - 1],
    ) == 108
}

/// The companion bridge-artifact name for a plugin file: the stem of the
/// plugin name followed by `.so`.
pub open spec fn companion_name(n: Seq<u8>) -> Seq<u8> {
    n.take(n.len() - 4) + seq![DOT, 115u8, 111u8]
}

pub fn make_companion_name(n: &Vec<u8>) -> (r: Vec<u8>)
    requires
        is_plugin_name(n@),
    ensures
        r@ == companion_name(n@),
{
    let mut r: Vec<u8> = Vec::new();
    let stem_len = n.len() - 4;
    let mut i: usize = 0;
    while i < stem_len
        invariant
            0 <= i <= stem_len,
            stem_len < n@.len(),
            r@ == n@.take(i as int),
        decreases stem_len - i,
    {
        r.push(n[i]);
        assert(n@.take(i as int + 1) =~= n@.take(i as int).push(n@[i as int]));
        i = i + 1;
    }
    r.push(DOT);
    r.push(115);
    r.push(111);
    assert(r@ =~= companion_name(n@));
    r
}

/// Copies the byte range `[a, b)` out of `v`.
pub fn subvec(v: &Vec<u8>, a: usize, b: usize) -> (r: Vec<u8>)
    requires
        a <= b <= v@.len(),
    ensures
        r@ == v@.subrange(a as int, b as int),
{
    let mut r: Vec<u8> = Vec::new();
    let mut i: usize = a;
    while i < b
        invariant
            a <= i <= b <= v@.len(),
            r@.len() == i - a,
            forall|j: int| 0 <= j < i - a ==> r@[j] == v@[a + j],
        decreases b - i,
    {
        r.push(v[i]);
        i = i + 1;
    }
    assert(r@ =~= v@.subrange(a as int, b as int));
    r
}

/// Decides whether `p` may be stored as a directory path: absolute,
/// normalized, free of line feeds.
pub fn check_valid_dir(p: &Vec<u8>) -> (r: bool)
    ensures
        r == valid_dir_path(p@),
{
    if p.len() == 0 {
        return false;
    }
    if p[0] != SLASH {
        return false;
    }
    if p.len() > 1 && p[p.len() - 1] == SLASH {
        return false;
    }
    let mut i: usize = 0;
    while i < p.len()
        invariant
            0 <= i <= p@.len(),
            forall|j: int| 0 <= j < i ==> p@[j] != NL,
        decreases p@.len() - i,
    {
        if p[i] == NL {
            return false;
        }
        i = i + 1;
    }
    true
}

/// Whether `p` starts with the byte string `pre`.
pub open spec fn has_prefix(s: Seq<u8>, pre: Seq<u8>) -> bool {
    s.len() >= pre.len() && s.take(pre.len() as int) == pre
}

pub fn check_prefix(s: &Vec<u8>, pre: &Vec<u8>) -> (r: bool)
    ensures
        r == has_prefix(s@, pre@),
{
    if s.len() < pre.len() {
        assert(!has_prefix(s@, pre@));
        return false;
    }
    let mut i: usize = 0;
    while i < pre.len()
        invariant
            0 <= i <= pre@.len(),
            pre@.len() <= s@.len(),
            forall|j: int| 0 <= j < i ==> s@[j] == pre@[j],
        decreases pre@.len() - i,
    {
        if s[i] != pre[i] {
            assert(s@.take(pre@.len() as int)[i as int] != pre@[i as int]);
            return false;
        }
        i = i + 1;
    }
    assert(s@.take(pre@.len() as int) =~= pre@);
    true
}

} // verus!
