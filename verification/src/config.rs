use vstd::prelude::*;
use crate::order::{
    lex_lt, strictly_sorted, bytes_lt, bytes_eq, lemma_lex_lt_irrefl, lemma_lex_lt_trichotomy,
    lemma_lex_lt_trans,
};
use crate::path::{
    valid_dir_path, is_abs, has_no_newline, normal_form, normalize, push_all,
    lemma_normal_form_valid,
};

verus! {

/// The intended way of placing the bridge library next to a plugin. It is a
/// hint for future installation work, never ground truth for status
/// reporting.
#[derive(Clone, Copy, PartialEq, Eq, Structural, Debug)]
pub enum InstallationMethod {
    Copy,
    Symlink,
}

/// The persisted configuration: the registered plugin directories, kept as a
/// sorted set of normalized absolute paths, an optional override for the
/// bridge-library location, and the intended installation method.
#[derive(Debug, PartialEq, Eq)]
pub struct Config {
    pub plugin_dirs: Vec<Vec<u8>>,
    pub yabridge_home: Option<Vec<u8>>,
    pub method: InstallationMethod,
}

/// The byte strings behind a sequence of byte vectors.
pub open spec fn views_of(s: Seq<Vec<u8>>) -> Seq<Seq<u8>> {
    s.map_values(|v: Vec<u8>| v@)
}

impl Config {
    /// The registered directories as byte strings, in storage order.
    pub open spec fn dirs_view(self) -> Seq<Seq<u8>> {
        views_of(self.plugin_dirs@)
    }

    /// The invariant of every configuration this library hands out: the
    /// directory set is strictly sorted (hence duplicate-free), every member
    /// is a normalized absolute path, and so is the override if set.
    pub open spec fn wf(self) -> bool {
        &&& strictly_sorted(self.dirs_view())
        &&& forall|i: int|
            0 <= i < self.dirs_view().len() ==> valid_dir_path(#[trigger] self.dirs_view()[i])
        &&& match self.yabridge_home {
            Some(h) => valid_dir_path(h@),
            None => true,
        }
    }
}

impl Default for Config {
    /// The configuration used when no document has been persisted yet.
    fn default() -> (c: Config)
        ensures
            c.plugin_dirs@.len() == 0,
            c.yabridge_home is None,
            c.method == InstallationMethod::Copy,
            c.wf(),
    {
        Config { plugin_dirs: Vec::new(), yabridge_home: None, method: InstallationMethod::Copy }
    }
}

/// Copies a byte string.
pub fn clone_bytes(v: &Vec<u8>) -> (r: Vec<u8>)
    ensures
        r@ == v@,
{
    let mut r: Vec<u8> = Vec::new();
    push_all(&mut r, v);
    assert(r@ =~= v@);
    r
}

/// Whether `path` is registered, byte for byte.
pub fn contains_dir(config: &Config, path: &Vec<u8>) -> (r: bool)
    ensures
        r == config.dirs_view().contains(path@),
{
    let mut i: usize = 0;
    while i < config.plugin_dirs.len()
        invariant
            0 <= i <= config.plugin_dirs@.len(),
            forall|j: int| 0 <= j < i ==> config.dirs_view()[j] != path@,
        decreases config.plugin_dirs@.len() - i,
    {
        if bytes_eq(&config.plugin_dirs[i], path) {
            assert(config.dirs_view()[i as int] == path@);
            return true;
        }
        i = i + 1;
    }
    assert(!config.dirs_view().contains(path@));
    false
}

/// The index at which `p` would be inserted to keep `dirs` sorted: the first
/// position whose entry is not below `p`.
fn find_insert_pos(dirs: &Vec<Vec<u8>>, p: &Vec<u8>) -> (idx: usize)
    ensures
        0 <= idx <= dirs@.len(),
        forall|j: int| 0 <= j < idx ==> lex_lt(#[trigger] views_of(dirs@)[j], p@),
        idx < dirs@.len() ==> !lex_lt(views_of(dirs@)[idx as int], p@),
{
    let mut idx: usize = 0;
    while idx < dirs.len()
        invariant
            0 <= idx <= dirs@.len(),
            forall|j: int| 0 <= j < idx ==> lex_lt(#[trigger] views_of(dirs@)[j], p@),
        decreases dirs@.len() - idx,
    {
        if !bytes_lt(&dirs[idx], p) {
            return idx;
        }
        idx = idx + 1;
    }
    idx
}

/// Registers a directory. The path is normalized first; inserting an already
/// registered path changes nothing, so a second identical call is a no-op.
/// Returns whether membership changed.
pub fn add_directory(config: &mut Config, path: Vec<u8>) -> (changed: bool)
    requires
        old(config).wf(),
        is_abs(path@),
        has_no_newline(path@),
    ensures
        final(config).wf(),
        final(config).yabridge_home == old(config).yabridge_home,
        final(config).method == old(config).method,
        final(config).dirs_view().contains(normal_form(path@)),
        forall|q: Seq<u8>|
            #[trigger] final(config).dirs_view().contains(q) <==> old(config).dirs_view().contains(
                q,
            ) || q == normal_form(path@),
        changed == !old(config).dirs_view().contains(normal_form(path@)),
        !changed ==> final(config).plugin_dirs@ == old(config).plugin_dirs@,
        changed ==> final(config).dirs_view().len() == old(config).dirs_view().len() + 1,
    {
    proof {
        lemma_normal_form_valid(path@);
    }
    let p = normalize(path);
    let ghost dv0 = old(config).dirs_view();
    let ghost pv = p@;
    let idx = find_insert_pos(&config.plugin_dirs, &p);
    if idx < config.plugin_dirs.len() && bytes_eq(&config.plugin_dirs[idx], &p) {
        assert(config.dirs_view()[idx as int] == pv);
        assert(config.dirs_view().contains(pv));
        return false;
    }
    proof {
        // `p` sits strictly between the entries before and from `idx` on.
        assert forall|j: int| idx <= j < dv0.len() implies lex_lt(pv, #[trigger] dv0[j]) by {
            lemma_lex_lt_trichotomy(pv, dv0[idx as int]);
            if j > idx {
                lemma_lex_lt_trans(pv, dv0[idx as int], dv0[j]);
            }
        }
        assert forall|j: int| 0 <= j < dv0.len() implies dv0[j] != pv by {
            lemma_lex_lt_irrefl(pv);
        }
        assert(!dv0.contains(pv));
    }
    config.plugin_dirs.insert(idx, p);
    proof {
        let dv1 = config.dirs_view();
        assert(dv1.len() == dv0.len() + 1);
        assert(dv1[idx as int] == pv);
        assert(forall|j: int| 0 <= j < idx ==> dv1[j] == dv0[j]);
        assert(forall|j: int| idx < j < dv1.len() ==> dv1[j] == dv0[j - 1]);
        assert(strictly_sorted(dv1));
        assert(forall|i: int| 0 <= i < dv1.len() ==> valid_dir_path(#[trigger] dv1[i]));
        assert(dv1.contains(pv)) by {
            assert(dv1[idx as int] == pv);
        }
        assert forall|q: Seq<u8>| #[trigger] dv1.contains(q) implies dv0.contains(q) || q == pv by {
            let k = choose|k: int| 0 <= k < dv1.len() && dv1[k] == q;
            if k < idx {
                assert(dv0[k] == q);
            } else if k > idx {
                assert(dv0[k - 1] == q);
            }
        }
        assert forall|q: Seq<u8>| dv0.contains(q) implies #[trigger] dv1.contains(q) by {
            let k = choose|k: int| 0 <= k < dv0.len() && dv0[k] == q;
            if k < idx {
                assert(dv1[k] == q);
            } else {
                assert(dv1[k + 1] == q);
            }
        }
    }
    true
}

/// Unregisters a directory. The path is normalized first; removing a path
/// that is not registered changes nothing — a defined no-op, not an error.
/// Returns whether membership changed.
pub fn remove_directory(config: &mut Config, path: &Vec<u8>) -> (changed: bool)
    requires
        old(config).wf(),
    ensures
        final(config).wf(),
        final(config).yabridge_home == old(config).yabridge_home,
        final(config).method == old(config).method,
        !final(config).dirs_view().contains(normal_form(path@)),
        forall|q: Seq<u8>|
            #[trigger] final(config).dirs_view().contains(q) <==> old(config).dirs_view().contains(
                q,
            ) && q != normal_form(path@),
        changed == old(config).dirs_view().contains(normal_form(path@)),
        !changed ==> final(config).plugin_dirs@ == old(config).plugin_dirs@,
        changed ==> final(config).dirs_view().len() == old(config).dirs_view().len() - 1,
    {
    let p = normalize(clone_bytes(path));
    let ghost dv0 = old(config).dirs_view();
    let ghost pv = p@;
    let mut i: usize = 0;
    while i < config.plugin_dirs.len()
        invariant
            0 <= i <= config.plugin_dirs@.len(),
            config == old(config),
            dv0 == config.dirs_view(),
            old(config).wf(),
            forall|j: int| 0 <= j < i ==> config.dirs_view()[j] != pv,
            pv == p@,
            pv == normal_form(path@),
        decreases config.plugin_dirs@.len() - i,
    {
        if bytes_eq(&config.plugin_dirs[i], &p) {
            assert(dv0[i as int] == pv);
            config.plugin_dirs.remove(i);
            proof {
                let dv1 = config.dirs_view();
                assert(dv1.len() == dv0.len() - 1);
                assert(forall|j: int| 0 <= j < i ==> dv1[j] == dv0[j]);
                assert(forall|j: int| i <= j < dv1.len() ==> dv1[j] == dv0[j + 1]);
                assert(strictly_sorted(dv1));
                assert(forall|k: int| 0 <= k < dv1.len() ==> valid_dir_path(#[trigger] dv1[k]));
                // every remaining entry differs from the removed one, because
                // the set was strictly sorted
                assert forall|j: int| 0 <= j < dv0.len() && j != i implies dv0[j] != pv by {
                    if j < i {
                        lemma_lex_lt_irrefl(pv);
                        assert(lex_lt(dv0[j], dv0[i as int]));
                    } else {
                        lemma_lex_lt_irrefl(pv);
                        assert(lex_lt(dv0[i as int], dv0[j]));
                    }
                }
                assert forall|q: Seq<u8>| #[trigger] dv1.contains(q) implies dv0.contains(q) && q
                    != pv by {
                    let k = choose|k: int| 0 <= k < dv1.len() && dv1[k] == q;
                    if k < i {
                        assert(dv0[k] == q);
                    } else {
                        assert(dv0[k + 1] == q);
                    }
                }
                assert forall|q: Seq<u8>| dv0.contains(q) && q != pv implies #[trigger] dv1.contains(
                    q,
                ) by {
                    let k = choose|k: int| 0 <= k < dv0.len() && dv0[k] == q;
                    if k < i {
                        assert(dv1[k] == q);
                    } else {
                        assert(k != i);
                        assert(dv1[k - 1] == q);
                    }
                }
                assert(dv0.contains(pv)) by {
                    assert(dv0[i as int] == pv);
                }
            }
            return true;
        }
        i = i + 1;
    }
    assert(!dv0.contains(pv));
    false
}

/// The registered directories, one copy each, in their canonical sorted
/// order. The output is a function of the configuration alone, so repeated
/// calls on an unchanged configuration list the same directories in the same
/// order.
pub fn list_directories(config: &Config) -> (r: Vec<Vec<u8>>)
    ensures
        views_of(r@) == config.dirs_view(),
{
    let mut r: Vec<Vec<u8>> = Vec::new();
    let mut i: usize = 0;
    while i < config.plugin_dirs.len()
        invariant
            0 <= i <= config.plugin_dirs@.len(),
            r@.len() == i,
            forall|j: int| 0 <= j < i ==> views_of(r@)[j] == config.dirs_view()[j],
        decreases config.plugin_dirs@.len() - i,
    {
        let ghost prev = r@;
        r.push(clone_bytes(&config.plugin_dirs[i]));
        assert(forall|j: int| 0 <= j < i ==> r@[j] == prev[j]);
        assert(views_of(r@)[i as int] == config.dirs_view()[i as int]);
        i = i + 1;
    }
    assert(views_of(r@) =~= config.dirs_view());
    r
}

/// Deterministic listing: any two listings of one configuration are equal,
/// element by element, since each is pinned to the configuration's canonical
/// directory sequence.
pub proof fn lemma_listing_deterministic(c: Config, r1: Seq<Seq<u8>>, r2: Seq<Seq<u8>>)
    requires
        r1 == c.dirs_view(),
        r2 == c.dirs_view(),
    ensures
        r1 == r2,
{
}

} // verus!
