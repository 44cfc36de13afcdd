use vstd::prelude::*;
use crate::config::{Config, InstallationMethod, views_of, clone_bytes};
use crate::fs::{
    Entry, FoundFile, InstallationCheckError, SearchItem, StatusView, status_view, items_view,
    keys_sorted, index_dir_spec, index_directory,
};
use crate::locator::LibraryNotFoundError;
use crate::path::push_all;

verus! {

/// Why one registered directory could not be scanned at all. Recoverable at
/// the per-directory granularity during status composition.
#[derive(Clone, Copy, Debug, PartialEq, Eq, Structural)]
pub enum DirectoryError {
    NotFound,
    PermissionDenied,
}

/// What the caller observed for one registered directory: its listing, or
/// the error that prevented reading it.
#[derive(Debug)]
pub enum ScanOutcome {
    Scanned(Vec<Entry>),
    Failed(DirectoryError),
}

/// One slot of the status report.
#[derive(Debug)]
pub struct DirReport {
    pub dir: Vec<u8>,
    pub result: Result<Vec<SearchItem>, DirectoryError>,
}

/// What one report slot must hold: the directory's own error, or its full
/// sorted index — regardless of what happened to any other directory.
pub open spec fn report_matches(dir: Seq<u8>, oc: ScanOutcome, rep: DirReport) -> bool {
    &&& rep.dir@ == dir
    &&& match (oc, rep.result) {
        (ScanOutcome::Failed(e), Err(e2)) => e2 == e,
        (ScanOutcome::Scanned(es), Ok(items)) => {
            &&& keys_sorted(items_view(items@))
            &&& items_view(items@).to_multiset() == index_dir_spec(dir, es@).to_multiset()
            &&& items_view(items@).len() == index_dir_spec(dir, es@).len()
        },
        _ => false,
    }
}

/// Builds the status report: one slot per registered directory, in the
/// canonical order. A directory that could not be scanned keeps its error in
/// its own slot, and every other slot is computed regardless — one broken
/// directory never hides the rest.
#[verifier::loop_isolation(false)]
pub fn compose(config: &Config, outcomes: Vec<ScanOutcome>) -> (r: Vec<DirReport>)
    requires
        outcomes@.len() == config.plugin_dirs@.len(),
    ensures
        r@.len() == config.dirs_view().len(),
        forall|i: int|
            0 <= i < r@.len() ==> report_matches(
                config.dirs_view()[i],
                outcomes@[i],
                #[trigger] r@[i],
            ),
{
    let ghost orig = outcomes@;
    let mut outcomes = outcomes;
    let mut r: Vec<DirReport> = Vec::new();
    let mut i: usize = 0;
    while i < config.plugin_dirs.len()
        invariant
            0 <= i <= config.plugin_dirs@.len(),
            r@.len() == i,
            outcomes@ =~= orig.skip(i as int),
            forall|j: int|
                0 <= j < i ==> report_matches(config.dirs_view()[j], orig[j], #[trigger] r@[j]),
        decreases config.plugin_dirs@.len() - i,
    {
        let dir = clone_bytes(&config.plugin_dirs[i]);
        let oc = outcomes.remove(0);
        proof {
            assert(oc == orig[i as int]);
            assert(orig.skip(i as int).remove(0) =~= orig.skip(i as int + 1));
        }
        let ghost r0 = r@;
        let rep = match oc {
            ScanOutcome::Scanned(es) => {
                let items = index_directory(&dir, &es);
                DirReport { dir, result: Ok(items) }
            },
            ScanOutcome::Failed(e) => DirReport { dir, result: Err(e) },
        };
        r.push(rep);
        assert(forall|j: int| 0 <= j < i ==> r@[j] == r0[j]);
        i = i + 1;
    }
    r
}

/// The word printed for one classification: `copy`, `symlink`,
/// `not installed`, or `unknown` for a file whose companion could not be
/// tested.
pub open spec fn status_word_view(v: StatusView) -> Seq<u8> {
    match v {
        StatusView::Copied(_) => seq![99u8, 111u8, 112u8, 121u8],
        StatusView::Linked(_) => seq![115u8, 121u8, 109u8, 108u8, 105u8, 110u8, 107u8],
        StatusView::Absent => seq![
            110u8, 111u8, 116u8, 32u8, 105u8, 110u8, 115u8, 116u8, 97u8, 108u8, 108u8, 101u8,
            100u8,
        ],
        StatusView::Unknown => seq![117u8, 110u8, 107u8, 110u8, 111u8, 119u8, 110u8],
    }
}

pub fn status_word(status: &Result<Option<FoundFile>, InstallationCheckError>) -> (r: Vec<u8>)
    ensures
        r@ == status_word_view(status_view(*status)),
{
    match status {
        Ok(Some(FoundFile::Regular(_))) => {
            let r: Vec<u8> = vec![99u8, 111u8, 112u8, 121u8];
            assert(r@ =~= status_word_view(status_view(*status)));
            r
        },
        Ok(Some(FoundFile::Symlink(_))) => {
            let r: Vec<u8> = vec![115u8, 121u8, 109u8, 108u8, 105u8, 110u8, 107u8];
            assert(r@ =~= status_word_view(status_view(*status)));
            r
        },
        Ok(None) => {
            let r: Vec<u8> = vec![
                110u8, 111u8, 116u8, 32u8, 105u8, 110u8, 115u8, 116u8, 97u8, 108u8, 108u8, 101u8,
                100u8,
            ];
            assert(r@ =~= status_word_view(status_view(*status)));
            r
        },
        Err(_) => {
            let r: Vec<u8> = vec![117u8, 110u8, 107u8, 110u8, 111u8, 119u8, 110u8];
            assert(r@ =~= status_word_view(status_view(*status)));
            r
        },
    }
}

/// The word printed for a directory that could not be scanned.
pub open spec fn directory_error_word(e: DirectoryError) -> Seq<u8> {
    match e {
        DirectoryError::NotFound => seq![
            110u8, 111u8, 116u8, 32u8, 102u8, 111u8, 117u8, 110u8, 100u8,
        ],
        DirectoryError::PermissionDenied => seq![
            112u8, 101u8, 114u8, 109u8, 105u8, 115u8, 115u8, 105u8, 111u8, 110u8, 32u8, 100u8,
            101u8, 110u8, 105u8, 101u8, 100u8,
        ],
    }
}

/// One report line per plugin: two spaces, the plugin path, ` :: `, the word.
pub open spec fn item_line(p: Seq<u8>, v: StatusView) -> Seq<u8> {
    seq![32u8, 32u8] + p + seq![32u8, 58u8, 58u8, 32u8] + status_word_view(v)
}

pub fn format_item_line(it: &SearchItem) -> (r: Vec<u8>)
    ensures
        r@ == item_line(it.plugin@, status_view(it.status)),
{
    let mut r: Vec<u8> = vec![32u8, 32u8];
    push_all(&mut r, &it.plugin);
    let sep: Vec<u8> = vec![32u8, 58u8, 58u8, 32u8];
    push_all(&mut r, &sep);
    let w = status_word(&it.status);
    push_all(&mut r, &w);
    assert(r@ =~= item_line(it.plugin@, status_view(it.status)));
    r
}

/// The header of one directory's section: the directory path and a colon.
pub open spec fn dir_header(d: Seq<u8>) -> Seq<u8> {
    d + seq![58u8]
}

/// The line shown in place of a section body when the directory could not be
/// scanned: two spaces, `error: `, the word.
pub open spec fn error_line(e: DirectoryError) -> Seq<u8> {
    seq![32u8, 32u8, 101u8, 114u8, 114u8, 111u8, 114u8, 58u8, 32u8] + directory_error_word(e)
}

/// The lines of one directory's section.
pub open spec fn report_lines(rep: DirReport) -> Seq<Seq<u8>> {
    seq![dir_header(rep.dir@)] + match rep.result {
        Ok(items) => items@.map_values(
            |it: SearchItem| item_line(it.plugin@, status_view(it.status)),
        ),
        Err(e) => seq![error_line(e)],
    }
}

/// Renders one report slot: the directory header, then one line per plugin
/// in the slot's (sorted) order, or the slot's error line.
#[verifier::loop_isolation(false)]
pub fn format_report(rep: &DirReport) -> (r: Vec<Vec<u8>>)
    ensures
        views_of(r@) == report_lines(*rep),
{
    let mut r: Vec<Vec<u8>> = Vec::new();
    let mut head = clone_bytes(&rep.dir);
    head.push(58);
    r.push(head);
    match &rep.result {
        Ok(items) => {
            proof {
                assert(rep.result == Ok::<Vec<SearchItem>, DirectoryError>(*items));
            }
            let mut i: usize = 0;
            while i < items.len()
                invariant
                    0 <= i <= items@.len(),
                    r@.len() == i + 1,
                    views_of(r@)[0] == dir_header(rep.dir@),
                    forall|j: int|
                        0 <= j < i ==> views_of(r@)[j + 1] == item_line(
                            (#[trigger] items@[j]).plugin@,
                            status_view(items@[j].status),
                        ),
                decreases items@.len() - i,
            {
                let ghost r0 = r@;
                r.push(format_item_line(&items[i]));
                assert(forall|j: int| 0 <= j < i + 1 ==> r@[j] == r0[j]);
                i = i + 1;
            }
            proof {
                let lines = report_lines(*rep);
                assert(views_of(r@).len() == lines.len());
                assert forall|j: int| 0 <= j < lines.len() implies views_of(r@)[j] == lines[j] by {
                    if j > 0 {
                        assert(views_of(r@)[j] == item_line(
                            items@[j - 1].plugin@,
                            status_view(items@[j - 1].status),
                        ));
                    }
                }
                assert(views_of(r@) =~= lines);
            }
        },
        Err(e) => {
            proof {
                assert(rep.result == Err::<Vec<SearchItem>, DirectoryError>(*e));
            }
            let mut line: Vec<u8> = vec![
                32u8, 32u8, 101u8, 114u8, 114u8, 111u8, 114u8, 58u8, 32u8,
            ];
            let w: Vec<u8> = match e {
                DirectoryError::NotFound => {
                    vec![110u8, 111u8, 116u8, 32u8, 102u8, 111u8, 117u8, 110u8, 100u8]
                },
                DirectoryError::PermissionDenied => {
                    vec![
                        112u8, 101u8, 114u8, 109u8, 105u8, 115u8, 115u8, 105u8, 111u8, 110u8, 32u8,
                        100u8, 101u8, 110u8, 105u8, 101u8, 100u8,
                    ]
                },
            };
            push_all(&mut line, &w);
            assert(line@ =~= error_line(*e));
            r.push(line);
            proof {
                let lines = report_lines(*rep);
                assert(lines =~= seq![dir_header(rep.dir@), error_line(*e)]);
                assert(views_of(r@).len() == 2);
                assert(views_of(r@)[0] == dir_header(rep.dir@));
                assert(views_of(r@)[1] == error_line(*e));
                assert(views_of(r@) =~= lines);
            }
        },
    }
    r
}

/// The first header line: `yabridge path: ` and the override in quotes, or
/// `<auto>` when discovery is automatic.
pub open spec fn yabridge_path_line(h: Option<Seq<u8>>) -> Seq<u8> {
    seq![
        121u8, 97u8, 98u8, 114u8, 105u8, 100u8, 103u8, 101u8, 32u8, 112u8, 97u8, 116u8, 104u8,
        58u8, 32u8,
    ] + match h {
        Some(p) => seq![39u8] + p + seq![39u8],
        None => seq![60u8, 97u8, 117u8, 116u8, 111u8, 62u8],
    }
}

/// The second header line: `libyabridge.so: ` and the resolved artifact path
/// in quotes, or `<not found>`.
pub open spec fn library_line(lib: Result<Vec<u8>, LibraryNotFoundError>) -> Seq<u8> {
    seq![
        108u8, 105u8, 98u8, 121u8, 97u8, 98u8, 114u8, 105u8, 100u8, 103u8, 101u8, 46u8, 115u8,
        111u8, 58u8, 32u8,
    ] + match lib {
        Ok(p) => seq![39u8] + p@ + seq![39u8],
        Err(_) => seq![60u8, 110u8, 111u8, 116u8, 32u8, 102u8, 111u8, 117u8, 110u8, 100u8, 62u8],
    }
}

/// The third header line: `installation method: ` and the configured hint.
pub open spec fn method_line_view(m: InstallationMethod) -> Seq<u8> {
    seq![
        105u8, 110u8, 115u8, 116u8, 97u8, 108u8, 108u8, 97u8, 116u8, 105u8, 111u8, 110u8, 32u8,
        109u8, 101u8, 116u8, 104u8, 111u8, 100u8, 58u8, 32u8,
    ] + match m {
        InstallationMethod::Copy => seq![99u8, 111u8, 112u8, 121u8],
        InstallationMethod::Symlink => seq![115u8, 121u8, 109u8, 108u8, 105u8, 110u8, 107u8],
    }
}

/// Renders the three header lines of a status report: the configured
/// override, the resolved bridge library (or the explicit not-found marker),
/// and the configured installation method.
pub fn header_lines(config: &Config, library: &Result<Vec<u8>, LibraryNotFoundError>) -> (r: Vec<
    Vec<u8>,
>)
    ensures
        views_of(r@) == seq![
            yabridge_path_line(crate::codec::home_view(*config)),
            library_line(*library),
            method_line_view(config.method),
        ],
{
    let mut l0: Vec<u8> = vec![
        121u8, 97u8, 98u8, 114u8, 105u8, 100u8, 103u8, 101u8, 32u8, 112u8, 97u8, 116u8, 104u8,
        58u8, 32u8,
    ];
    match &config.yabridge_home {
        Some(p) => {
            l0.push(39);
            push_all(&mut l0, p);
            l0.push(39);
        },
        None => {
            let auto: Vec<u8> = vec![60u8, 97u8, 117u8, 116u8, 111u8, 62u8];
            push_all(&mut l0, &auto);
        },
    }
    assert(l0@ =~= yabridge_path_line(crate::codec::home_view(*config)));
    let mut l1: Vec<u8> = vec![
        108u8, 105u8, 98u8, 121u8, 97u8, 98u8, 114u8, 105u8, 100u8, 103u8, 101u8, 46u8, 115u8,
        111u8, 58u8, 32u8,
    ];
    match library {
        Ok(p) => {
            l1.push(39);
            push_all(&mut l1, p);
            l1.push(39);
        },
        Err(_) => {
            let marker: Vec<u8> = vec![
                60u8, 110u8, 111u8, 116u8, 32u8, 102u8, 111u8, 117u8, 110u8, 100u8, 62u8,
            ];
            push_all(&mut l1, &marker);
        },
    }
    assert(l1@ =~= library_line(*library));
    let mut l2: Vec<u8> = vec![
        105u8, 110u8, 115u8, 116u8, 97u8, 108u8, 108u8, 97u8, 116u8, 105u8, 111u8, 110u8, 32u8,
        109u8, 101u8, 116u8, 104u8, 111u8, 100u8, 58u8, 32u8,
    ];
    match config.method {
        InstallationMethod::Copy => {
            let w: Vec<u8> = vec![99u8, 111u8, 112u8, 121u8];
            push_all(&mut l2, &w);
        },
        InstallationMethod::Symlink => {
            let w: Vec<u8> = vec![115u8, 121u8, 109u8, 108u8, 105u8, 110u8, 107u8];
            push_all(&mut l2, &w);
        },
    }
    assert(l2@ =~= method_line_view(config.method));
    let mut r: Vec<Vec<u8>> = Vec::new();
    r.push(l0);
    r.push(l1);
    r.push(l2);
    assert(views_of(r@) =~= seq![
        yabridge_path_line(crate::codec::home_view(*config)),
        library_line(*library),
        method_line_view(config.method),
    ]);
    r
}

} // verus!
