use vstd::prelude::*;

verus! {

/// The message shown when an argument path does not exist:
/// `File or directory '<path>' could not be found`.
pub open spec fn missing_path_message(p: Seq<u8>) -> Seq<u8> {
    seq![
        70u8, 105u8, 108u8, 101u8, 32u8, 111u8, 114u8, 32u8, 100u8, 105u8, 114u8, 101u8, 99u8,
        116u8, 111u8, 114u8, 121u8, 32u8, 39u8,
    ] + p + seq![
        39u8, 32u8, 99u8, 111u8, 117u8, 108u8, 100u8, 32u8, 110u8, 111u8, 116u8, 32u8, 98u8, 101u8,
        32u8, 102u8, 111u8, 117u8, 110u8, 100u8,
    ]
}

/// Validates one argument path before it is added or removed. Whether the
/// path exists on disk is observed by the caller and handed in; a missing
/// path is rejected with the user-facing message, an existing one accepted.
pub fn validate_path(path: &Vec<u8>, exists: bool) -> (r: Result<(), Vec<u8>>)
    ensures
        match r {
            Ok(_) => exists,
            Err(m) => !exists && m@ == missing_path_message(path@),
        },
{
    if exists {
        Ok(())
    } else {
        let mut m: Vec<u8> = vec![
            70u8, 105u8, 108u8, 101u8, 32u8, 111u8, 114u8, 32u8, 100u8, 105u8, 114u8, 101u8, 99u8,
            116u8, 111u8, 114u8, 121u8, 32u8, 39u8,
        ];
        crate::path::push_all(&mut m, path);
        let tail: Vec<u8> = vec![
            39u8, 32u8, 99u8, 111u8, 117u8, 108u8, 100u8, 32u8, 110u8, 111u8, 116u8, 32u8, 98u8,
            101u8, 32u8, 102u8, 111u8, 117u8, 110u8, 100u8,
        ];
        crate::path::push_all(&mut m, &tail);
        assert(m@ =~= missing_path_message(path@));
        Err(m)
    }
}

} // verus!
