use vstd::prelude::*;
use crate::order::{
    lex_lt, lex_le, bytes_lt, bytes_eq, lemma_lex_lt_trans, lemma_lex_lt_trichotomy,
    lemma_lex_lt_irrefl,
};
use crate::path::{joined, join_path, is_plugin_name, check_plugin_name, companion_name,
    make_companion_name};
use vstd::multiset::Multiset;

verus! {

broadcast use vstd::seq_lib::group_to_multiset_ensures;

/// One directory entry as observed on disk: its file name and what was found
/// behind it. A symbolic link is never followed, so it is always a leaf; that
/// is what makes scanning safe against link cycles.
#[derive(Debug)]
pub struct Entry {
    pub name: Vec<u8>,
    pub node: FsTree,
}

/// The shape of one filesystem object, as far as the scanner looks at it.
#[derive(Debug)]
pub enum FsTree {
    /// A real (non-symlink) directory together with its entries.
    Dir(Vec<Entry>),
    /// A regular file.
    File,
    /// A symbolic link, wherever it points, dangling included.
    Symlink,
    /// Anything else, or an entry whose type could not be determined.
    Other,
}

/// The companion bridge artifact found beside a plugin, holding the
/// artifact's own path (not a link's target).
#[derive(Clone, Debug, PartialEq, Eq)]
pub enum FoundFile {
    Regular(Vec<u8>),
    Symlink(Vec<u8>),
}

/// A filesystem error while testing the companion path of one plugin:
/// surfaced per file, never aborting the directory.
#[derive(Clone, Copy, Debug, PartialEq, Eq, Structural)]
pub struct InstallationCheckError;

/// One discovered plugin together with its companion classification.
#[derive(Debug, PartialEq, Eq)]
pub struct SearchItem {
    pub plugin: Vec<u8>,
    pub status: Result<Option<FoundFile>, InstallationCheckError>,
}

/// The mathematical shape of a classification.
pub enum StatusView {
    Absent,
    Copied(Seq<u8>),
    Linked(Seq<u8>),
    Unknown,
}

pub open spec fn status_view(s: Result<Option<FoundFile>, InstallationCheckError>) -> StatusView {
    match s {
        Ok(None) => StatusView::Absent,
        Ok(Some(FoundFile::Regular(p))) => StatusView::Copied(p@),
        Ok(Some(FoundFile::Symlink(p))) => StatusView::Linked(p@),
        Err(_) => StatusView::Unknown,
    }
}

pub open spec fn item_view(it: SearchItem) -> (Seq<u8>, StatusView) {
    (it.plugin@, status_view(it.status))
}

pub open spec fn items_view(s: Seq<SearchItem>) -> Seq<(Seq<u8>, StatusView)> {
    s.map_values(|it: SearchItem| item_view(it))
}

/// The node stored under name `n`, first match if names repeat.
pub open spec fn lookup_node(es: Seq<Entry>, n: Seq<u8>) -> Option<FsTree>
    decreases es.len(),
{
    if es.len() == 0 {
        None
    } else if es[0].name@ == n {
        Some(es[0].node)
    } else {
        lookup_node(es.drop_first(), n)
    }
}

/// Ground truth for one plugin name within its directory `es`: what stands at
/// the companion path. No entry, or a directory, means no artifact; a regular
/// file is a copy; a symbolic link counts as a link wherever it points; an
/// entry of undetermined type is an unknown.
pub open spec fn classify_view(dir: Seq<u8>, es: Seq<Entry>, name: Seq<u8>) -> StatusView {
    match lookup_node(es, companion_name(name)) {
        None => StatusView::Absent,
        Some(FsTree::File) => StatusView::Copied(joined(dir, companion_name(name))),
        Some(FsTree::Symlink) => StatusView::Linked(joined(dir, companion_name(name))),
        Some(FsTree::Dir(_)) => StatusView::Absent,
        Some(FsTree::Other) => StatusView::Unknown,
    }
}

/// Classifies the companion artifact of the plugin `name` inside `entries`,
/// the listing of directory `dir`.
pub fn classify(dir: &Vec<u8>, entries: &Vec<Entry>, name: &Vec<u8>) -> (r: Result<
    Option<FoundFile>,
    InstallationCheckError,
>)
    requires
        is_plugin_name(name@),
    ensures
        status_view(r) == classify_view(dir@, entries@, name@),
{
    let companion = make_companion_name(name);
    proof {
        assert(entries@.skip(0) =~= entries@);
    }
    let mut i: usize = 0;
    while i < entries.len()
        invariant
            0 <= i <= entries@.len(),
            companion@ == companion_name(name@),
            lookup_node(entries@, companion@) == lookup_node(entries@.skip(i as int), companion@),
        decreases entries@.len() - i,
    {
        proof {
            assert(entries@.skip(i as int)[0] == entries@[i as int]);
            assert(entries@.skip(i as int).drop_first() =~= entries@.skip(i as int + 1));
        }
        if bytes_eq(&entries[i].name, &companion) {
            match &entries[i].node {
                FsTree::File => {
                    let p = join_path(dir, &companion);
                    return Ok(Some(FoundFile::Regular(p)));
                },
                FsTree::Symlink => {
                    let p = join_path(dir, &companion);
                    return Ok(Some(FoundFile::Symlink(p)));
                },
                FsTree::Dir(_) => {
                    return Ok(None);
                },
                FsTree::Other => {
                    return Err(InstallationCheckError);
                },
            }
        }
        i = i + 1;
    }
    proof {
        assert(entries@.skip(entries@.len() as int) =~= Seq::<Entry>::empty());
    }
    Ok(None)
}

/// The items contributed by the entries of `rest`, classifying against the
/// full listing `all` of the directory at `base`, in listing order.
pub open spec fn index_in(base: Seq<u8>, all: Seq<Entry>, rest: Seq<Entry>) -> Seq<
    (Seq<u8>, StatusView),
>
    decreases rest,
{
    if rest.len() == 0 {
        Seq::empty()
    } else {
        index_entry(base, all, rest[0]) + index_in(base, all, rest.drop_first())
    }
}

/// What one entry contributes: a real subdirectory is descended, a regular
/// file with the plugin suffix is reported with its classification, and
/// everything else — symbolic links above all — contributes nothing.
pub open spec fn index_entry(base: Seq<u8>, all: Seq<Entry>, e: Entry) -> Seq<(Seq<u8>, StatusView)>
    decreases e,
{
    match e.node {
        FsTree::Dir(sub) => index_in(joined(base, e.name@), sub@, sub@),
        FsTree::File => if is_plugin_name(e.name@) {
            seq![(joined(base, e.name@), classify_view(base, all, e.name@))]
        } else {
            Seq::empty()
        },
        FsTree::Symlink => Seq::empty(),
        FsTree::Other => Seq::empty(),
    }
}

/// Everything found under the directory `base` with listing `es`.
pub open spec fn index_dir_spec(base: Seq<u8>, es: Seq<Entry>) -> Seq<(Seq<u8>, StatusView)> {
    index_in(base, es, es)
}

/// Cycle safety: a directory symlink — however it loops back into the tree —
/// is never followed and contributes nothing to a scan. Together with the
/// termination of `index_in` on every finite tree this is what "never hang,
/// never duplicate" rests on.
pub proof fn lemma_symlink_not_followed(base: Seq<u8>, all: Seq<Entry>, e: Entry)
    requires
        e.node is Symlink,
    ensures
        index_entry(base, all, e) == Seq::<(Seq<u8>, StatusView)>::empty(),
{
}

/// A usable entry name: non-empty and free of separators, as every name in
/// a real directory listing is.
pub open spec fn name_ok(n: Seq<u8>) -> bool {
    n.len() > 0 && forall|i: int| 0 <= i < n.len() ==> n[i] != crate::path::SLASH
}

/// A well-formed tree, as any tree read off a real filesystem is: within
/// each directory the names are usable and pairwise distinct.
pub open spec fn wf_listing(es: Seq<Entry>) -> bool
    decreases es,
{
    &&& forall|i: int, j: int|
        0 <= i < j < es.len() ==> (#[trigger] es[i].name)@ != (#[trigger] es[j].name)@
    &&& forall|i: int| 0 <= i < es.len() ==> name_ok((#[trigger] es[i]).name@)
    &&& forall|i: int| 0 <= i < es.len() ==> wf_node(#[trigger] es[i])
}

pub open spec fn wf_node(e: Entry) -> bool
    decreases e,
{
    match e.node {
        FsTree::Dir(sub) => wf_listing(sub@),
        _ => true,
    }
}

/// `k` lies below the entry called `n` of the directory at `b`: it extends
/// `b` with a separator and `n`, and whatever follows opens with a separator
/// of its own.
pub open spec fn under_name(k: Seq<u8>, b: Seq<u8>, n: Seq<u8>) -> bool {
    let s = k.skip(b.len() as int + 1);
    &&& k.len() > b.len() + 1
    &&& k.take(b.len() as int + 1) == b + seq![crate::path::SLASH]
    &&& s.len() >= n.len()
    &&& s.take(n.len() as int) == n
    &&& (s.len() == n.len() || s[n.len() as int] == crate::path::SLASH)
}

pub open spec fn under_some(k: Seq<u8>, b: Seq<u8>, es: Seq<Entry>) -> bool {
    exists|j: int| 0 <= j < es.len() && under_name(k, b, (#[trigger] es[j]).name@)
}

/// Distinct separator-free names pin down distinct subtrees: one path cannot
/// lie below two different entries of one directory.
proof fn lemma_under_name_unique(k: Seq<u8>, b: Seq<u8>, n1: Seq<u8>, n2: Seq<u8>)
    requires
        under_name(k, b, n1),
        under_name(k, b, n2),
        name_ok(n1),
        name_ok(n2),
    ensures
        n1 == n2,
{
    let s = k.skip(b.len() as int + 1);
    if n1.len() < n2.len() {
        assert(s.len() >= n2.len());
        assert(s[n1.len() as int] == crate::path::SLASH);
        assert(s.take(n2.len() as int)[n1.len() as int] == s[n1.len() as int]);
        assert(n2[n1.len() as int] != crate::path::SLASH);
        assert(false);
    } else if n2.len() < n1.len() {
        assert(s.len() >= n1.len());
        assert(s[n2.len() as int] == crate::path::SLASH);
        assert(s.take(n1.len() as int)[n2.len() as int] == s[n2.len() as int]);
        assert(n1[n2.len() as int] != crate::path::SLASH);
        assert(false);
    }
}

proof fn lemma_entry_keys_ok(base: Seq<u8>, all: Seq<Entry>, e: Entry)
    requires
        wf_node(e),
        name_ok(e.name@),
    ensures
        forall|t: int|
            0 <= t < index_entry(base, all, e).len() ==> under_name(
                (#[trigger] index_entry(base, all, e)[t]).0,
                base,
                e.name@,
            ),
        forall|t1: int, t2: int|
            0 <= t1 < t2 < index_entry(base, all, e).len() ==> (#[trigger] index_entry(
                base,
                all,
                e,
            )[t1]).0 != (#[trigger] index_entry(base, all, e)[t2]).0,
    decreases e,
{
    let ie = index_entry(base, all, e);
    match e.node {
        FsTree::File => {
            if is_plugin_name(e.name@) {
                let k = joined(base, e.name@);
                assert(k.take(base.len() as int + 1) =~= base + seq![crate::path::SLASH]);
                assert(k.skip(base.len() as int + 1) =~= e.name@);
                assert(e.name@.take(e.name@.len() as int) =~= e.name@);
                assert(under_name(k, base, e.name@));
                assert(ie[0].0 == k);
            }
        },
        FsTree::Dir(sub) => {
            let b2 = joined(base, e.name@);
            lemma_in_keys_ok(b2, sub@, sub@);
            assert(ie == index_in(b2, sub@, sub@));
            assert forall|t: int| 0 <= t < ie.len() implies under_name(
                (#[trigger] ie[t]).0,
                base,
                e.name@,
            ) by {
                let k = ie[t].0;
                assert(index_in(b2, sub@, sub@)[t] == ie[t]);
                assert(under_some(k, b2, sub@));
                let j = choose|j: int| 0 <= j < sub@.len() && under_name(k, b2, sub@[j].name@);
                assert(k.take(b2.len() as int + 1) == b2 + seq![crate::path::SLASH]);
                assert(b2.len() == base.len() + 1 + e.name@.len());
                assert forall|u: int| 0 <= u < b2.len() + 1 implies k[u] == (b2 + seq![
                    crate::path::SLASH,
                ])[u] by {
                    assert(k.take(b2.len() as int + 1)[u] == k[u]);
                }
                assert(k.take(base.len() as int + 1) =~= base + seq![crate::path::SLASH]);
                let s = k.skip(base.len() as int + 1);
                assert(s.take(e.name@.len() as int) =~= e.name@);
                assert(s[e.name@.len() as int] == k[b2.len() as int]);
                assert(k[b2.len() as int] == crate::path::SLASH);
            }
        },
        FsTree::Symlink => {},
        FsTree::Other => {},
    }
}

proof fn lemma_in_keys_ok(base: Seq<u8>, all: Seq<Entry>, rest: Seq<Entry>)
    requires
        wf_listing(rest),
    ensures
        forall|t: int|
            0 <= t < index_in(base, all, rest).len() ==> under_some(
                (#[trigger] index_in(base, all, rest)[t]).0,
                base,
                rest,
            ),
        forall|t1: int, t2: int|
            0 <= t1 < t2 < index_in(base, all, rest).len() ==> (#[trigger] index_in(
                base,
                all,
                rest,
            )[t1]).0 != (#[trigger] index_in(base, all, rest)[t2]).0,
    decreases rest,
{
    if rest.len() > 0 {
        let head = index_entry(base, all, rest[0]);
        let tail = index_in(base, all, rest.drop_first());
        let iin = index_in(base, all, rest);
        assert(iin == head + tail);
        assert(wf_listing(rest.drop_first())) by {
            assert(forall|i: int|
                0 <= i < rest.drop_first().len() ==> #[trigger] rest.drop_first()[i] == rest[i
                    + 1]);
        }
        lemma_entry_keys_ok(base, all, rest[0]);
        lemma_in_keys_ok(base, all, rest.drop_first());
        assert forall|t: int| 0 <= t < iin.len() implies under_some(
            (#[trigger] iin[t]).0,
            base,
            rest,
        ) by {
            if t < head.len() {
                assert(under_name(iin[t].0, base, rest[0].name@));
            } else {
                let k = iin[t].0;
                assert(iin[t] == tail[t - head.len()]);
                assert(under_some(k, base, rest.drop_first()));
                let j = choose|j: int|
                    0 <= j < rest.drop_first().len() && under_name(
                        k,
                        base,
                        rest.drop_first()[j].name@,
                    );
                assert(rest.drop_first()[j] == rest[j + 1]);
                assert(under_name(k, base, rest[j + 1].name@));
            }
        }
        assert forall|t1: int, t2: int| 0 <= t1 < t2 < iin.len() implies (#[trigger] iin[t1]).0
            != (#[trigger] iin[t2]).0 by {
            if t2 < head.len() {
                assert(iin[t1] == head[t1] && iin[t2] == head[t2]);
            } else if t1 >= head.len() {
                assert(iin[t1] == tail[t1 - head.len()] && iin[t2] == tail[t2 - head.len()]);
            } else {
                assert(iin[t1] == head[t1] && iin[t2] == tail[t2 - head.len()]);
                if iin[t1].0 == iin[t2].0 {
                    let k = iin[t1].0;
                    assert(under_name(k, base, rest[0].name@));
                    assert(under_some(k, base, rest.drop_first()));
                    let j = choose|j: int|
                        0 <= j < rest.drop_first().len() && under_name(
                            k,
                            base,
                            rest.drop_first()[j].name@,
                        );
                    assert(rest.drop_first()[j] == rest[j + 1]);
                    lemma_under_name_unique(k, base, rest[0].name@, rest[j + 1].name@);
                    assert(rest[0].name@ == rest[j + 1].name@);
                    assert(false);
                }
            }
        }
    }
}

/// The other half of "never hang, never duplicate": over any well-formed
/// tree — unique, separator-free names within each directory, as a real
/// filesystem guarantees — no plugin path is reported twice, however the
/// tree's symlinks loop.
pub proof fn lemma_no_duplicate_plugins(base: Seq<u8>, es: Seq<Entry>)
    requires
        wf_listing(es),
    ensures
        forall|i: int, j: int|
            0 <= i < j < index_dir_spec(base, es).len() ==> (#[trigger] index_dir_spec(
                base,
                es,
            )[i]).0 != (#[trigger] index_dir_spec(base, es)[j]).0,
{
    lemma_in_keys_ok(base, es, es);
}

proof fn lemma_index_in_push(base: Seq<u8>, all: Seq<Entry>, rest: Seq<Entry>, e: Entry)
    ensures
        index_in(base, all, rest.push(e)) == index_in(base, all, rest) + index_entry(base, all, e),
    decreases rest,
{
    if rest.len() == 0 {
        assert(rest.push(e)[0] == e);
        assert(rest.push(e).drop_first() =~= Seq::<Entry>::empty());
        assert(index_in(base, all, Seq::<Entry>::empty()) == Seq::<(Seq<u8>, StatusView)>::empty());
        assert(rest =~= Seq::<Entry>::empty());
        assert(index_in(base, all, rest.push(e)) =~= index_in(base, all, rest) + index_entry(
            base,
            all,
            e,
        ));
    } else {
        assert(rest.push(e)[0] == rest[0]);
        assert(rest.push(e).drop_first() =~= rest.drop_first().push(e));
        lemma_index_in_push(base, all, rest.drop_first(), e);
        assert(index_in(base, all, rest.push(e)) =~= index_in(base, all, rest) + index_entry(
            base,
            all,
            e,
        ));
    }
}

/// Moves every item of `src` to the end of `dst`, keeping order.
fn drain_append(dst: &mut Vec<SearchItem>, src: Vec<SearchItem>)
    ensures
        items_view(final(dst)@) == items_view(old(dst)@) + items_view(src@),
{
    let mut src = src;
    let ghost orig = src@;
    let ghost mut done: int = 0;
    while src.len() > 0
        invariant
            0 <= done <= orig.len(),
            src@ =~= orig.skip(done),
            items_view(dst@) =~= items_view(old(dst)@) + items_view(orig.take(done)),
        decreases src@.len(),
    {
        let it = src.remove(0);
        proof {
            assert(it == orig[done]);
            assert(orig.skip(done).remove(0) =~= orig.skip(done + 1));
        }
        let ghost dpre = dst@;
        dst.push(it);
        proof {
            assert(dst@ == dpre.push(it));
            assert(items_view(dpre.push(it)) =~= items_view(dpre).push(item_view(it)));
            assert(orig.take(done + 1) =~= orig.take(done).push(it));
            assert(items_view(orig.take(done).push(it)) =~= items_view(orig.take(done)).push(
                item_view(it),
            ));
            assert(items_view(dst@) =~= items_view(old(dst)@) + items_view(orig.take(done + 1)));
            done = done + 1;
        }
    }
    assert(orig.take(orig.len() as int) =~= orig);
    assert(items_view(dst@) =~= items_view(old(dst)@) + items_view(orig));
}

/// Walks the tree under `base` with listing `entries`, reporting each plugin
/// file and its companion classification, in discovery order. Verified
/// termination on every finite tree is the "never hang" half of cycle
/// safety; symlinks are leaves and never descended.
#[verifier::loop_isolation(false)]
pub fn index_tree(base: &Vec<u8>, entries: &Vec<Entry>) -> (r: Vec<SearchItem>)
    ensures
        items_view(r@) == index_dir_spec(base@, entries@),
    decreases entries,
{
    let mut r: Vec<SearchItem> = Vec::new();
    let mut i: usize = 0;
    while i < entries.len()
        invariant
            0 <= i <= entries@.len(),
            items_view(r@) =~= index_in(base@, entries@, entries@.take(i as int)),
        decreases entries@.len() - i,
    {
        proof {
            assert(entries@.take(i as int + 1) =~= entries@.take(i as int).push(
                entries@[i as int],
            ));
            lemma_index_in_push(base@, entries@, entries@.take(i as int), entries@[i as int]);
        }
        match &entries[i].node {
            FsTree::Dir(sub) => {
                let b2 = join_path(base, &entries[i].name);
                let sub_items = index_tree(&b2, sub);
                drain_append(&mut r, sub_items);
            },
            FsTree::File => {
                if check_plugin_name(&entries[i].name) {
                    let p = join_path(base, &entries[i].name);
                    let st = classify(base, entries, &entries[i].name);
                    let ghost r0 = r@;
                    r.push(SearchItem { plugin: p, status: st });
                    proof {
                        assert(items_view(r@) =~= items_view(r0).push(
                            (p@, status_view(st)),
                        ));
                    }
                }
            },
            FsTree::Symlink => {},
            FsTree::Other => {},
        }
        proof {
            assert(items_view(r@) =~= index_in(base@, entries@, entries@.take(i as int + 1)));
        }
        i = i + 1;
    }
    proof {
        assert(entries@.take(entries@.len() as int) =~= entries@);
    }
    r
}

/// Keys in ascending lexicographic order.
pub open spec fn keys_sorted(s: Seq<(Seq<u8>, StatusView)>) -> bool {
    forall|i: int, j: int| 0 <= i < j < s.len() ==> lex_le(#[trigger] s[i].0, #[trigger] s[j].0)
}

/// The plugin paths of a sequence of items.
pub open spec fn keys_of(s: Seq<(Seq<u8>, StatusView)>) -> Seq<Seq<u8>> {
    s.map_values(|p: (Seq<u8>, StatusView)| p.0)
}

/// Sorts items by plugin path, keeping the collection of items itself.
#[verifier::loop_isolation(false)]
pub fn sort_items(items: Vec<SearchItem>) -> (r: Vec<SearchItem>)
    ensures
        keys_sorted(items_view(r@)),
        items_view(r@).to_multiset() == items_view(items@).to_multiset(),
        items_view(r@).len() == items_view(items@).len(),
        keys_of(items_view(r@)).to_multiset() == keys_of(items_view(items@)).to_multiset(),
{
    let ghost orig = items@;
    let mut src = items;
    let mut r: Vec<SearchItem> = Vec::new();
    while src.len() > 0
        invariant
            items_view(r@).to_multiset().add(items_view(src@).to_multiset()) == items_view(
                orig,
            ).to_multiset(),
            keys_of(items_view(r@)).to_multiset().add(
                keys_of(items_view(src@)).to_multiset(),
            ) == keys_of(items_view(orig)).to_multiset(),
            items_view(r@).len() + items_view(src@).len() == items_view(orig).len(),
            forall|i: int, j: int|
                0 <= i < r@.len() && 0 <= j < src@.len() ==> !lex_lt(
                    #[trigger] items_view(src@)[j].0,
                    #[trigger] items_view(r@)[i].0,
                ),
            forall|i: int, j: int|
                0 <= i < j < r@.len() ==> !lex_lt(
                    #[trigger] items_view(r@)[j].0,
                    #[trigger] items_view(r@)[i].0,
                ),
        decreases src@.len(),
    {
        // select the least remaining key
        let mut best: usize = 0;
        let mut t: usize = 1;
        proof {
            lemma_lex_lt_irrefl(items_view(src@)[0].0);
        }
        while t < src.len()
            invariant
                0 <= best < t,
                t <= src@.len() || t == 1,
                forall|u: int|
                    0 <= u < t && u < src@.len() ==> !lex_lt(
                        #[trigger] items_view(src@)[u].0,
                        items_view(src@)[best as int].0,
                    ),
            decreases src@.len() - t,
        {
            if bytes_lt(&src[t].plugin, &src[best].plugin) {
                proof {
                    let sv = items_view(src@);
                    lemma_lex_lt_irrefl(sv[t as int].0);
                    assert forall|u: int| 0 <= u < t implies !lex_lt(
                        #[trigger] sv[u].0,
                        sv[t as int].0,
                    ) by {
                        if lex_lt(sv[u].0, sv[t as int].0) {
                            lemma_lex_lt_trans(sv[u].0, sv[t as int].0, sv[best as int].0);
                        }
                    }
                }
                best = t;
            }
            t = t + 1;
        }
        let ghost src0 = src@;
        let it = src.remove(best);
        proof {
            assert(it == src0[best as int]);
            assert(items_view(src0.remove(best as int)) =~= items_view(src0).remove(best as int));
            assert(items_view(src0).remove(best as int).to_multiset() == items_view(
                src0,
            ).to_multiset().remove(item_view(it)));
            assert(keys_of(items_view(src@)) =~= keys_of(items_view(src0)).remove(best as int));
            assert(keys_of(items_view(src0)).remove(best as int).to_multiset() == keys_of(
                items_view(src0),
            ).to_multiset().remove(item_view(it).0));
        }
        let ghost r0 = r@;
        r.push(it);
        proof {
            assert(items_view(r@) =~= items_view(r0).push(item_view(it)));
            assert(items_view(r0).push(item_view(it)).to_multiset() == items_view(
                r0,
            ).to_multiset().insert(item_view(it)));
            let m1 = items_view(r0).to_multiset();
            let m2 = items_view(src0).to_multiset();
            assert(m1.insert(item_view(it)).add(m2.remove(item_view(it))) =~= m1.add(m2));
            assert(keys_of(items_view(r@)) =~= keys_of(items_view(r0)).push(item_view(it).0));
            assert(keys_of(items_view(r0)).push(item_view(it).0).to_multiset() == keys_of(
                items_view(r0),
            ).to_multiset().insert(item_view(it).0));
            let k1 = keys_of(items_view(r0)).to_multiset();
            let k2 = keys_of(items_view(src0)).to_multiset();
            assert(k1.insert(item_view(it).0).add(k2.remove(item_view(it).0)) =~= k1.add(k2));
            // the selected key is below everything still in src
            assert forall|j: int| 0 <= j < src@.len() implies !lex_lt(
                #[trigger] items_view(src@)[j].0,
                item_view(it).0,
            ) by {
                if j < best {
                    assert(items_view(src@)[j] == items_view(src0)[j]);
                } else {
                    assert(items_view(src@)[j] == items_view(src0)[j + 1]);
                }
            }
        }
    }
    proof {
        assert(items_view(src@) =~= Seq::<(Seq<u8>, StatusView)>::empty());
        assert(items_view(r@).to_multiset().add(Multiset::<(Seq<u8>, StatusView)>::empty())
            =~= items_view(r@).to_multiset());
        assert(keys_of(items_view(src@)) =~= Seq::<Seq<u8>>::empty());
        assert(keys_of(items_view(r@)).to_multiset().add(Multiset::<Seq<u8>>::empty())
            =~= keys_of(items_view(r@)).to_multiset());
        let rv = items_view(r@);
        assert forall|i: int, j: int| 0 <= i < j < rv.len() implies lex_le(
            #[trigger] rv[i].0,
            #[trigger] rv[j].0,
        ) by {
            lemma_lex_lt_trichotomy(rv[i].0, rv[j].0);
        }
    }
    r
}

/// Scans the directory at `base` with listing `entries`: every plugin file in
/// the tree, classified, sorted by path.
pub fn index_directory(base: &Vec<u8>, entries: &Vec<Entry>) -> (r: Vec<SearchItem>)
    ensures
        keys_sorted(items_view(r@)),
        items_view(r@).to_multiset() == index_dir_spec(base@, entries@).to_multiset(),
        items_view(r@).len() == index_dir_spec(base@, entries@).len(),
        keys_of(items_view(r@)).to_multiset() == keys_of(
            index_dir_spec(base@, entries@),
        ).to_multiset(),
{
    let items = index_tree(base, entries);
    sort_items(items)
}

/// Enumerates the plugin files under the directory `base` with listing
/// `entries`: exactly the paths that the index reports, delivered sorted
/// whatever order the listing came in.
pub fn scan(base: &Vec<u8>, entries: &Vec<Entry>) -> (r: Vec<Vec<u8>>)
    ensures
        forall|i: int, j: int|
            0 <= i < j < r@.len() ==> lex_le(
                #[trigger] crate::config::views_of(r@)[i],
                #[trigger] crate::config::views_of(r@)[j],
            ),
        crate::config::views_of(r@).to_multiset() == keys_of(
            index_dir_spec(base@, entries@),
        ).to_multiset(),
{
    let items = index_directory(base, entries);
    let mut r: Vec<Vec<u8>> = Vec::new();
    let mut i: usize = 0;
    while i < items.len()
        invariant
            0 <= i <= items@.len(),
            r@.len() == i,
            forall|j: int|
                0 <= j < i ==> crate::config::views_of(r@)[j] == items_view(items@)[j].0,
        decreases items@.len() - i,
    {
        let ghost r0 = r@;
        r.push(crate::config::clone_bytes(&items[i].plugin));
        assert forall|j: int| 0 <= j < i implies crate::config::views_of(r@)[j] == items_view(
            items@,
        )[j].0 by {
            assert(r@[j] == r0[j]);
            assert(crate::config::views_of(r0)[j] == r0[j]@);
        }
        assert(crate::config::views_of(r@)[i as int] == items_view(items@)[i as int].0);
        i = i + 1;
    }
    assert(crate::config::views_of(r@) =~= keys_of(items_view(items@)));
    r
}

} // verus!
