use vstd::prelude::*;
use crate::path::{joined, join_path};
use crate::config::{views_of, clone_bytes};

verus! {

/// The bridge library artifact was found at none of the expected locations —
/// a hard failure for whatever needed its path.
#[derive(Clone, Copy, Debug, PartialEq, Eq, Structural)]
pub struct LibraryNotFoundError;

/// The file name of the bridge shared-library artifact, `libyabridge.so`.
pub open spec fn library_name() -> Seq<u8> {
    seq![
        108u8, 105u8, 98u8, 121u8, 97u8, 98u8, 114u8, 105u8, 100u8, 103u8, 101u8, 46u8, 115u8,
        111u8,
    ]
}

pub fn library_name_vec() -> (r: Vec<u8>)
    ensures
        r@ == library_name(),
{
    let r: Vec<u8> = vec![
        108u8, 105u8, 98u8, 121u8, 97u8, 98u8, 114u8, 105u8, 100u8, 103u8, 101u8, 46u8, 115u8,
        111u8,
    ];
    assert(r@ =~= library_name());
    r
}

/// The fixed probe list used when no override is set, as data so that tests
/// can swap it out: the per-user data directory's bridge folder first, then
/// the system-wide library folders.
pub fn default_probe_dirs(data_dir: &Vec<u8>) -> (r: Vec<Vec<u8>>)
    ensures
        views_of(r@) == seq![
            joined(
                data_dir@,
                seq![121u8, 97u8, 98u8, 114u8, 105u8, 100u8, 103u8, 101u8],
            ),
            seq![
                47u8, 117u8, 115u8, 114u8, 47u8, 108u8, 105u8, 98u8, 47u8, 121u8, 97u8, 98u8,
                114u8, 105u8, 100u8, 103u8, 101u8,
            ],
            seq![
                47u8, 117u8, 115u8, 114u8, 47u8, 108u8, 111u8, 99u8, 97u8, 108u8, 47u8, 108u8,
                105u8, 98u8, 47u8, 121u8, 97u8, 98u8, 114u8, 105u8, 100u8, 103u8, 101u8,
            ],
        ],
{
    let seg: Vec<u8> = vec![121u8, 97u8, 98u8, 114u8, 105u8, 100u8, 103u8, 101u8];
    let mut r: Vec<Vec<u8>> = Vec::new();
    r.push(join_path(data_dir, &seg));
    r.push(vec![
        47u8, 117u8, 115u8, 114u8, 47u8, 108u8, 105u8, 98u8, 47u8, 121u8, 97u8, 98u8, 114u8,
        105u8, 100u8, 103u8, 101u8,
    ]);
    r.push(vec![
        47u8, 117u8, 115u8, 114u8, 47u8, 108u8, 111u8, 99u8, 97u8, 108u8, 47u8, 108u8, 105u8,
        98u8, 47u8, 121u8, 97u8, 98u8, 114u8, 105u8, 100u8, 103u8, 101u8,
    ]);
    assert(views_of(r@) =~= seq![
        joined(data_dir@, seq![121u8, 97u8, 98u8, 114u8, 105u8, 100u8, 103u8, 101u8]),
        seq![
            47u8, 117u8, 115u8, 114u8, 47u8, 108u8, 105u8, 98u8, 47u8, 121u8, 97u8, 98u8, 114u8,
            105u8, 100u8, 103u8, 101u8,
        ],
        seq![
            47u8, 117u8, 115u8, 114u8, 47u8, 108u8, 111u8, 99u8, 97u8, 108u8, 47u8, 108u8, 105u8,
            98u8, 47u8, 121u8, 97u8, 98u8, 114u8, 105u8, 100u8, 103u8, 101u8,
        ],
    ]);
    r
}

/// The candidate artifact paths, in probe order. An explicit override names
/// exactly one expected location under it — it is honored literally, with no
/// fallback; otherwise each probe directory contributes one candidate.
pub fn library_candidates(home: &Option<Vec<u8>>, probe_dirs: &Vec<Vec<u8>>) -> (r: Vec<Vec<u8>>)
    ensures
        match home {
            Some(h) => views_of(r@) == seq![joined(h@, library_name())],
            None => views_of(r@).len() == probe_dirs@.len() && forall|i: int|
                0 <= i < probe_dirs@.len() ==> views_of(r@)[i] == joined(
                    #[trigger] views_of(probe_dirs@)[i],
                    library_name(),
                ),
        },
{
    let name = library_name_vec();
    let mut r: Vec<Vec<u8>> = Vec::new();
    match home {
        Some(h) => {
            r.push(join_path(h, &name));
            assert(views_of(r@) =~= seq![joined(h@, library_name())]);
        },
        None => {
            let mut i: usize = 0;
            while i < probe_dirs.len()
                invariant
                    0 <= i <= probe_dirs@.len(),
                    r@.len() == i,
                    forall|j: int|
                        0 <= j < i ==> views_of(r@)[j] == joined(
                            #[trigger] views_of(probe_dirs@)[j],
                            library_name(),
                        ),
                    name@ == library_name(),
                decreases probe_dirs@.len() - i,
            {
                let ghost r0 = r@;
                r.push(join_path(&probe_dirs[i], &name));
                assert(forall|j: int| 0 <= j < i ==> r@[j] == r0[j]);
                i = i + 1;
            }
        },
    }
    r
}

/// Resolves the artifact among the candidates: the first candidate that
/// exists wins; if none exists the library is not found. The caller observes
/// existence on disk and hands it in, index for index.
pub fn resolve_library(candidates: &Vec<Vec<u8>>, exists: &Vec<bool>) -> (r: Result<
    Vec<u8>,
    LibraryNotFoundError,
>)
    requires
        exists@.len() == candidates@.len(),
    ensures
        match r {
            Ok(p) => exists|i: int|
                0 <= i < candidates@.len() && exists@[i] && p@ == views_of(candidates@)[i] && (
                forall|j: int| 0 <= j < i ==> !exists@[j]),
            Err(_) => forall|i: int| 0 <= i < candidates@.len() ==> !exists@[i],
        },
{
    let mut i: usize = 0;
    while i < candidates.len()
        invariant
            0 <= i <= candidates@.len(),
            exists@.len() == candidates@.len(),
            forall|j: int| 0 <= j < i ==> !exists@[j],
        decreases candidates@.len() - i,
    {
        if exists[i] {
            let p = clone_bytes(&candidates[i]);
            return Ok(p);
        }
        i = i + 1;
    }
    Err(LibraryNotFoundError)
}

} // verus!
