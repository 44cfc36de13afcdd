use vstd::prelude::*;
use crate::order::{lex_lt, strictly_sorted, bytes_lt, bytes_eq, lemma_sorted_from_adjacent};
use crate::path::{
    valid_dir_path, has_no_newline, has_prefix, check_prefix, check_valid_dir, push_all, subvec, NL,
};
use crate::config::{Config, InstallationMethod, views_of};

verus! {

/// Why a configuration document could not be obtained: the storage was
/// unreadable, or its content did not parse.
#[derive(Clone, Copy, PartialEq, Eq, Structural, Debug)]
pub enum ConfigError {
    Io,
    Parse,
}

/// The bytes of `method=`.
pub open spec fn method_prefix() -> Seq<u8> {
    seq![109u8, 101u8, 116u8, 104u8, 111u8, 100u8, 61u8]
}

/// The bytes of `home=`.
pub open spec fn home_prefix() -> Seq<u8> {
    seq![104u8, 111u8, 109u8, 101u8, 61u8]
}

/// The bytes of `dir=`.
pub open spec fn dir_prefix() -> Seq<u8> {
    seq![100u8, 105u8, 114u8, 61u8]
}

/// The bytes of `copy`.
pub open spec fn copy_bytes() -> Seq<u8> {
    seq![99u8, 111u8, 112u8, 121u8]
}

/// The bytes of `symlink`.
pub open spec fn symlink_bytes() -> Seq<u8> {
    seq![115u8, 121u8, 109u8, 108u8, 105u8, 110u8, 107u8]
}

pub open spec fn method_bytes(m: InstallationMethod) -> Seq<u8> {
    match m {
        InstallationMethod::Copy => copy_bytes(),
        InstallationMethod::Symlink => symlink_bytes(),
    }
}

/// The serialized directory lines, one `dir=` line per registered directory.
pub open spec fn dir_lines(ds: Seq<Seq<u8>>) -> Seq<u8>
    decreases ds.len(),
{
    if ds.len() == 0 {
        Seq::empty()
    } else {
        dir_prefix() + ds[0] + seq![NL] + dir_lines(ds.drop_first())
    }
}

pub open spec fn home_lines(h: Option<Seq<u8>>) -> Seq<u8> {
    match h {
        Some(p) => home_prefix() + p + seq![NL],
        None => Seq::empty(),
    }
}

/// The override path as a byte string.
pub open spec fn home_view(c: Config) -> Option<Seq<u8>> {
    match c.yabridge_home {
        Some(h) => Some(h@),
        None => None,
    }
}

/// The canonical serialized form of a configuration: a `method=` line, an
/// optional `home=` line, then one `dir=` line per directory in sorted order.
pub open spec fn encoded_config(c: Config) -> Seq<u8> {
    method_prefix() + method_bytes(c.method) + seq![NL] + home_lines(home_view(c)) + dir_lines(
        c.dirs_view(),
    )
}

/// Index of the first line feed in `s`, or -1 if there is none.
pub open spec fn find_nl(s: Seq<u8>) -> int
    decreases s.len(),
{
    if s.len() == 0 {
        -1
    } else if s[0] == NL {
        0
    } else {
        let k = find_nl(s.drop_first());
        if k < 0 {
            -1
        } else {
            k + 1
        }
    }
}

pub proof fn lemma_find_nl_at(s: Seq<u8>, k: int)
    requires
        0 <= k < s.len(),
        s[k] == NL,
        forall|j: int| 0 <= j < k ==> s[j] != NL,
    ensures
        find_nl(s) == k,
    decreases k,
{
    if k > 0 {
        let s1 = s.drop_first();
        assert(forall|j: int| 0 <= j < k - 1 ==> s1[j] == s[j + 1]);
        lemma_find_nl_at(s1, k - 1);
    }
}

pub proof fn lemma_find_nl_none(s: Seq<u8>)
    requires
        forall|j: int| 0 <= j < s.len() ==> s[j] != NL,
    ensures
        find_nl(s) == -1,
    decreases s.len(),
{
    if s.len() > 0 {
        let s1 = s.drop_first();
        assert(forall|j: int| 0 <= j < s1.len() ==> s1[j] == s[j + 1]);
        lemma_find_nl_none(s1);
    }
}

/// The first line of `x ++ [NL] ++ rest` is exactly `x` when `x` holds no
/// line feed: splitting off one line undoes appending one.
pub proof fn lemma_split_line(x: Seq<u8>, rest: Seq<u8>)
    requires
        has_no_newline(x),
    ensures
        find_nl(x + seq![NL] + rest) == x.len(),
        (x + seq![NL] + rest).take(x.len() as int) == x,
        (x + seq![NL] + rest).skip(x.len() as int + 1) == rest,
{
    let s = x + seq![NL] + rest;
    assert(s[x.len() as int] == NL);
    assert(forall|j: int| 0 <= j < x.len() ==> s[j] == x[j] && s[j] != NL);
    lemma_find_nl_at(s, x.len() as int);
    assert(s.take(x.len() as int) =~= x);
    assert(s.skip(x.len() as int + 1) =~= rest);
}

pub open spec fn parse_method(line: Seq<u8>) -> Option<InstallationMethod> {
    if line == method_prefix() + copy_bytes() {
        Some(InstallationMethod::Copy)
    } else if line == method_prefix() + symlink_bytes() {
        Some(InstallationMethod::Symlink)
    } else {
        None
    }
}

/// Parses the `dir=` lines: every remaining line must carry one valid path.
pub open spec fn parse_dirs(s: Seq<u8>) -> Option<Seq<Seq<u8>>>
    decreases s.len(),
{
    if s.len() == 0 {
        Some(Seq::empty())
    } else {
        let k = find_nl(s);
        if 0 <= k < s.len() {
            let line = s.take(k);
            let rest = s.skip(k + 1);
            if has_prefix(line, dir_prefix()) && valid_dir_path(line.skip(4)) {
                match parse_dirs(rest) {
                    Some(ds) => Some(seq![line.skip(4)] + ds),
                    None => None,
                }
            } else {
                None
            }
        } else {
            None
        }
    }
}

/// Parses what follows the method line: an optional `home=` line, then the
/// directory lines.
pub open spec fn parse_tail(s: Seq<u8>) -> Option<(Option<Seq<u8>>, Seq<Seq<u8>>)> {
    if s.len() == 0 {
        Some((None, Seq::empty()))
    } else {
        let k = find_nl(s);
        if 0 <= k < s.len() {
            let line = s.take(k);
            let rest = s.skip(k + 1);
            if has_prefix(line, home_prefix()) {
                if valid_dir_path(line.skip(5)) {
                    match parse_dirs(rest) {
                        Some(ds) => Some((Some(line.skip(5)), ds)),
                        None => None,
                    }
                } else {
                    None
                }
            } else {
                match parse_dirs(s) {
                    Some(ds) => Some((None, ds)),
                    None => None,
                }
            }
        } else {
            None
        }
    }
}

/// What a well-formed document means: a method line, an optional override
/// line, directory lines in strictly ascending order. Anything else is
/// rejected.
pub open spec fn parse_config(s: Seq<u8>) -> Option<(
    InstallationMethod,
    Option<Seq<u8>>,
    Seq<Seq<u8>>,
)> {
    let k = find_nl(s);
    if 0 <= k < s.len() {
        match parse_method(s.take(k)) {
            Some(m) => match parse_tail(s.skip(k + 1)) {
                Some((h, ds)) => if strictly_sorted(ds) {
                    Some((m, h, ds))
                } else {
                    None
                },
                None => None,
            },
            None => None,
        }
    } else {
        None
    }
}

pub proof fn lemma_parse_dirs_round_trip(ds: Seq<Seq<u8>>)
    requires
        forall|i: int| 0 <= i < ds.len() ==> valid_dir_path(#[trigger] ds[i]),
    ensures
        parse_dirs(dir_lines(ds)) == Some(ds),
    decreases ds.len(),
{
    if ds.len() == 0 {
    } else {
        let x = dir_prefix() + ds[0];
        let rest = dir_lines(ds.drop_first());
        assert(dir_lines(ds) =~= x + seq![NL] + rest);
        assert(has_no_newline(x));
        lemma_split_line(x, rest);
        let s = dir_lines(ds);
        assert(find_nl(s) == x.len());
        assert(s.take(x.len() as int) == x);
        assert(s.skip(x.len() as int + 1) == rest);
        assert(x.take(dir_prefix().len() as int) =~= dir_prefix());
        assert(has_prefix(x, dir_prefix()));
        assert(x.skip(4) =~= ds[0]);
        assert(forall|i: int|
            0 <= i < ds.drop_first().len() ==> valid_dir_path(#[trigger] ds.drop_first()[i]));
        lemma_parse_dirs_round_trip(ds.drop_first());
        assert(seq![x.skip(4)] + ds.drop_first() =~= ds);
    }
}

pub proof fn lemma_parse_tail_round_trip(h: Option<Seq<u8>>, ds: Seq<Seq<u8>>)
    requires
        forall|i: int| 0 <= i < ds.len() ==> valid_dir_path(#[trigger] ds[i]),
        match h {
            Some(p) => valid_dir_path(p),
            None => true,
        },
    ensures
        parse_tail(home_lines(h) + dir_lines(ds)) == Some((h, ds)),
{
    let s = home_lines(h) + dir_lines(ds);
    match h {
        Some(p) => {
            let x = home_prefix() + p;
            let rest = dir_lines(ds);
            assert(s =~= x + seq![NL] + rest);
            assert(has_no_newline(x));
            lemma_split_line(x, rest);
            assert(s.len() > 0);
            assert(x.take(home_prefix().len() as int) =~= home_prefix());
            assert(has_prefix(x, home_prefix()));
            assert(x.skip(5) =~= p);
            lemma_parse_dirs_round_trip(ds);
        },
        None => {
            assert(s =~= dir_lines(ds));
            if ds.len() == 0 {
                assert(s.len() == 0);
            } else {
                let x = dir_prefix() + ds[0];
                let rest = dir_lines(ds.drop_first());
                assert(s =~= x + seq![NL] + rest);
                assert(has_no_newline(x));
                lemma_split_line(x, rest);
                let line = s.take(x.len() as int);
                // a directory line does not carry the override prefix
                assert(line[0] == 100u8);
                assert(!has_prefix(line, home_prefix())) by {
                    if has_prefix(line, home_prefix()) {
                        assert(line.take(home_prefix().len() as int)[0] == line[0]);
                    }
                }
                lemma_parse_dirs_round_trip(ds);
            }
        },
    }
}

/// Round trip: the canonical encoding of any well-formed configuration
/// parses back to exactly that configuration.
pub proof fn lemma_config_round_trip(c: Config)
    requires
        c.wf(),
    ensures
        parse_config(encoded_config(c)) == Some((c.method, home_view(c), c.dirs_view())),
{
    let x = method_prefix() + method_bytes(c.method);
    let rest = home_lines(home_view(c)) + dir_lines(c.dirs_view());
    let s = encoded_config(c);
    assert(s =~= x + seq![NL] + rest);
    assert(has_no_newline(x)) by {
        match c.method {
            InstallationMethod::Copy => {},
            InstallationMethod::Symlink => {},
        }
    }
    lemma_split_line(x, rest);
    assert(s.take(x.len() as int) == x);
    assert(parse_method(x) == Some(c.method)) by {
        match c.method {
            InstallationMethod::Copy => {},
            InstallationMethod::Symlink => {
                assert(x != method_prefix() + copy_bytes()) by {
                    assert(x.len() != (method_prefix() + copy_bytes()).len());
                }
            },
        }
    }
    lemma_parse_tail_round_trip(home_view(c), c.dirs_view());
}

fn method_prefix_vec() -> (r: Vec<u8>)
    ensures
        r@ == method_prefix(),
{
    let mut r: Vec<u8> = Vec::new();
    r.push(109);
    r.push(101);
    r.push(116);
    r.push(104);
    r.push(111);
    r.push(100);
    r.push(61);
    assert(r@ =~= method_prefix());
    r
}

fn home_prefix_vec() -> (r: Vec<u8>)
    ensures
        r@ == home_prefix(),
{
    let mut r: Vec<u8> = Vec::new();
    r.push(104);
    r.push(111);
    r.push(109);
    r.push(101);
    r.push(61);
    assert(r@ =~= home_prefix());
    r
}

fn dir_prefix_vec() -> (r: Vec<u8>)
    ensures
        r@ == dir_prefix(),
{
    let mut r: Vec<u8> = Vec::new();
    r.push(100);
    r.push(105);
    r.push(114);
    r.push(61);
    assert(r@ =~= dir_prefix());
    r
}

fn copy_vec() -> (r: Vec<u8>)
    ensures
        r@ == copy_bytes(),
{
    let mut r: Vec<u8> = Vec::new();
    r.push(99);
    r.push(111);
    r.push(112);
    r.push(121);
    assert(r@ =~= copy_bytes());
    r
}

fn symlink_vec() -> (r: Vec<u8>)
    ensures
        r@ == symlink_bytes(),
{
    let mut r: Vec<u8> = Vec::new();
    r.push(115);
    r.push(121);
    r.push(109);
    r.push(108);
    r.push(105);
    r.push(110);
    r.push(107);
    assert(r@ =~= symlink_bytes());
    r
}

proof fn lemma_dir_lines_push(ds: Seq<Seq<u8>>, d: Seq<u8>)
    ensures
        dir_lines(ds.push(d)) == dir_lines(ds) + (dir_prefix() + d + seq![NL]),
    decreases ds.len(),
{
    if ds.len() == 0 {
        assert(ds.push(d)[0] == d);
        assert(ds.push(d).drop_first() =~= Seq::<Seq<u8>>::empty());
        assert(dir_lines(Seq::<Seq<u8>>::empty()) == Seq::<u8>::empty());
        assert(ds =~= Seq::<Seq<u8>>::empty());
        assert(dir_lines(ds.push(d)) =~= dir_lines(ds) + (dir_prefix() + d + seq![NL]));
    } else {
        assert(ds.push(d)[0] == ds[0]);
        assert(ds.push(d).drop_first() =~= ds.drop_first().push(d));
        lemma_dir_lines_push(ds.drop_first(), d);
        assert(dir_lines(ds.push(d)) =~= dir_lines(ds) + (dir_prefix() + d + seq![NL]));
    }
}

/// Serializes a configuration into its canonical document.
#[verifier::loop_isolation(false)]
pub fn encode_config(config: &Config) -> (r: Vec<u8>)
    ensures
        r@ == encoded_config(*config),
{
    let mut r: Vec<u8> = Vec::new();
    let mp = method_prefix_vec();
    push_all(&mut r, &mp);
    match config.method {
        InstallationMethod::Copy => {
            let v = copy_vec();
            push_all(&mut r, &v);
        },
        InstallationMethod::Symlink => {
            let v = symlink_vec();
            push_all(&mut r, &v);
        },
    }
    r.push(NL);
    assert(r@ =~= method_prefix() + method_bytes(config.method) + seq![NL]);
    match &config.yabridge_home {
        Some(h) => {
            let hp = home_prefix_vec();
            push_all(&mut r, &hp);
            push_all(&mut r, h);
            r.push(NL);
        },
        None => {},
    }
    assert(r@ =~= method_prefix() + method_bytes(config.method) + seq![NL] + home_lines(
        home_view(*config),
    ));
    let ghost head = r@;
    let mut i: usize = 0;
    while i < config.plugin_dirs.len()
        invariant
            0 <= i <= config.plugin_dirs@.len(),
            r@ == head + dir_lines(config.dirs_view().take(i as int)),
        decreases config.plugin_dirs@.len() - i,
    {
        let dp = dir_prefix_vec();
        push_all(&mut r, &dp);
        push_all(&mut r, &config.plugin_dirs[i]);
        r.push(NL);
        proof {
            lemma_dir_lines_push(
                config.dirs_view().take(i as int),
                config.dirs_view()[i as int],
            );
            assert(config.dirs_view().take(i as int + 1) =~= config.dirs_view().take(
                i as int,
            ).push(config.dirs_view()[i as int]));
            assert(r@ =~= head + dir_lines(config.dirs_view().take(i as int + 1)));
        }
        i = i + 1;
    }
    proof {
        assert(config.dirs_view().take(config.dirs_view().len() as int) =~= config.dirs_view());
        assert(r@ =~= encoded_config(*config));
    }
    r
}

/// Finds the first line feed at or past `start`.
fn find_newline_from(bytes: &Vec<u8>, start: usize) -> (r: Option<usize>)
    requires
        start <= bytes@.len(),
    ensures
        match r {
            Some(k) => start <= k < bytes@.len() && bytes@[k as int] == NL && (forall|j: int|
                start <= j < k ==> bytes@[j] != NL) && find_nl(bytes@.skip(start as int)) == k
                - start,
            None => find_nl(bytes@.skip(start as int)) == -1,
        },
{
    let mut i: usize = start;
    while i < bytes.len()
        invariant
            start <= i <= bytes@.len(),
            forall|j: int| start <= j < i ==> bytes@[j] != NL,
        decreases bytes@.len() - i,
    {
        if bytes[i] == NL {
            proof {
                let s = bytes@.skip(start as int);
                assert(forall|j: int| 0 <= j < s.len() ==> s[j] == bytes@[start + j]);
                lemma_find_nl_at(s, i - start);
            }
            return Some(i);
        }
        i = i + 1;
    }
    proof {
        let s = bytes@.skip(start as int);
        assert(forall|j: int| 0 <= j < s.len() ==> s[j] == bytes@[start + j]);
        lemma_find_nl_none(s);
    }
    None
}

/// Parses a configuration document. Exactly the canonical form that
/// `encode_config` writes is accepted; anything else is a parse error.
#[verifier::rlimit(100)]
#[verifier::loop_isolation(false)]
pub fn decode_config(bytes: &Vec<u8>) -> (r: Result<Config, ConfigError>)
    ensures
        match r {
            Ok(c) => c.wf() && parse_config(bytes@) == Some(
                (c.method, home_view(c), c.dirs_view()),
            ),
            Err(e) => e == ConfigError::Parse && parse_config(bytes@) is None,
        },
{
    proof {
        assert(bytes@.skip(0) =~= bytes@);
    }
    let k0 = match find_newline_from(bytes, 0) {
        Some(k) => k,
        None => {
            return Err(ConfigError::Parse);
        },
    };
    let line0 = subvec(bytes, 0, k0);
    proof {
        assert(line0@ =~= bytes@.take(k0 as int));
    }
    let mut mcopy = method_prefix_vec();
    let cv = copy_vec();
    push_all(&mut mcopy, &cv);
    let mut msym = method_prefix_vec();
    let sv = symlink_vec();
    push_all(&mut msym, &sv);
    let m: InstallationMethod;
    if bytes_eq(&line0, &mcopy) {
        m = InstallationMethod::Copy;
    } else if bytes_eq(&line0, &msym) {
        m = InstallationMethod::Symlink;
    } else {
        assert(parse_method(bytes@.take(k0 as int)) is None);
        return Err(ConfigError::Parse);
    }
    assert(parse_method(bytes@.take(k0 as int)) == Some(m));
    let ghost tail = bytes@.skip(k0 as int + 1);
    let mut pos: usize = k0 + 1;
    let mut home: Option<Vec<u8>> = None;
    if pos == bytes.len() {
        proof {
            assert(tail =~= Seq::<u8>::empty());
        }
        let c = Config { plugin_dirs: Vec::new(), yabridge_home: None, method: m };
        proof {
            assert(c.dirs_view() =~= Seq::<Seq<u8>>::empty());
            assert(c.wf());
            assert(parse_tail(tail) == Some((None::<Seq<u8>>, Seq::<Seq<u8>>::empty())));
            assert(parse_config(bytes@) == Some((m, home_view(c), c.dirs_view())));
        }
        return Ok(c);
    }
    assert(tail.len() > 0);
    let k1 = match find_newline_from(bytes, pos) {
        Some(k) => k,
        None => {
            proof {
                assert(parse_tail(tail) is None);
                assert(parse_config(bytes@) is None);
            }
            return Err(ConfigError::Parse);
        },
    };
    let line1 = subvec(bytes, pos, k1);
    proof {
        assert(line1@ =~= tail.take(k1 as int - pos as int));
    }
    let hp = home_prefix_vec();
    let ghost mut hv: Option<Seq<u8>> = None;
    let ghost mut dstart: int = pos as int;
    if check_prefix(&line1, &hp) {
        assert(line1@.len() >= 5);
        let h = subvec(bytes, pos + 5, k1);
        proof {
            assert(h@ =~= line1@.skip(5));
        }
        if !check_valid_dir(&h) {
            proof {
                assert(parse_tail(tail) is None);
                assert(parse_config(bytes@) is None);
            }
            return Err(ConfigError::Parse);
        }
        proof {
            hv = Some(h@);
            dstart = k1 as int + 1;
            assert(tail.skip(k1 as int - (pos as int) + 1) =~= bytes@.skip(dstart));
        }
        home = Some(h);
        pos = k1 + 1;
    }
    assert(dstart == pos as int);
    assert(match home {
        Some(hh) => hv == Some(hh@) && valid_dir_path(hh@),
        None => hv is None,
    });
    assert(match parse_dirs(bytes@.skip(dstart)) {
        Some(ds) => parse_tail(tail) == Some((hv, ds)),
        None => parse_tail(tail) is None,
    });
    let mut dirs: Vec<Vec<u8>> = Vec::new();
    while pos < bytes.len()
        invariant
            dstart <= pos as int <= bytes@.len(),
            forall|j: int| 0 <= j < dirs@.len() ==> valid_dir_path(#[trigger] views_of(dirs@)[j]),
            match parse_dirs(bytes@.skip(pos as int)) {
                Some(ds) => parse_dirs(bytes@.skip(dstart)) == Some(views_of(dirs@) + ds),
                None => parse_dirs(bytes@.skip(dstart)) is None,
            },
        decreases bytes@.len() - pos,
    {
        let ghost p0 = pos as int;
        let ghost s0 = bytes@.skip(p0);
        assert(s0.len() > 0);
        let k = match find_newline_from(bytes, pos) {
            Some(k) => k,
            None => {
                proof {
                    assert(parse_dirs(s0) is None);
                    assert(parse_tail(tail) is None);
                    assert(parse_config(bytes@) is None);
                }
                return Err(ConfigError::Parse);
            },
        };
        let line = subvec(bytes, pos, k);
        proof {
            assert(line@ =~= s0.take(k as int - p0));
        }
        let dp = dir_prefix_vec();
        if !check_prefix(&line, &dp) {
            proof {
                assert(parse_dirs(s0) is None);
                assert(parse_tail(tail) is None);
                assert(parse_config(bytes@) is None);
            }
            return Err(ConfigError::Parse);
        }
        assert(line@.len() >= 4);
        let d = subvec(bytes, pos + 4, k);
        proof {
            assert(d@ =~= line@.skip(4));
        }
        if !check_valid_dir(&d) {
            proof {
                assert(parse_dirs(s0) is None);
                assert(parse_tail(tail) is None);
                assert(parse_config(bytes@) is None);
            }
            return Err(ConfigError::Parse);
        }
        let ghost dirs0 = dirs@;
        dirs.push(d);
        pos = k + 1;
        proof {
            assert(s0.skip(k as int - p0 + 1) =~= bytes@.skip(pos as int));
            assert(views_of(dirs@) =~= views_of(dirs0).push(d@));
            if parse_dirs(bytes@.skip(pos as int)) is Some {
                let ds = parse_dirs(bytes@.skip(pos as int)).unwrap();
                assert(parse_dirs(s0) == Some(seq![d@] + ds));
                assert(views_of(dirs0) + (seq![d@] + ds) =~= views_of(dirs@) + ds);
            } else {
                assert(parse_dirs(s0) is None);
            }
        }
    }
    proof {
        assert(bytes@.skip(pos as int) =~= Seq::<u8>::empty());
        assert(parse_dirs(Seq::<u8>::empty()) == Some(Seq::<Seq<u8>>::empty()));
        assert(views_of(dirs@) + Seq::<Seq<u8>>::empty() =~= views_of(dirs@));
        assert(parse_dirs(bytes@.skip(dstart)) == Some(views_of(dirs@)));
        assert(parse_tail(tail) == Some((hv, views_of(dirs@))));
    }
    let mut i: usize = 1;
    while i < dirs.len()
        invariant
            1 <= i,
            dirs@.len() > 0 ==> i <= dirs@.len(),
            forall|t: int|
                0 < t < i && t < dirs@.len() ==> lex_lt(
                    views_of(dirs@)[t - 1],
                    #[trigger] views_of(dirs@)[t],
                ),
        decreases dirs@.len() - i,
    {
        if !bytes_lt(&dirs[i - 1], &dirs[i]) {
            proof {
                assert(!lex_lt(views_of(dirs@)[i as int - 1], views_of(dirs@)[i as int]));
                assert(!strictly_sorted(views_of(dirs@)));
                assert(parse_config(bytes@) is None);
            }
            return Err(ConfigError::Parse);
        }
        i = i + 1;
    }
    proof {
        assert forall|t: int|
            0 <= t < views_of(dirs@).len() - 1 implies lex_lt(
            #[trigger] views_of(dirs@)[t],
            views_of(dirs@)[t + 1],
        ) by {
            assert(0 < t + 1 < i && t + 1 < dirs@.len());
        }
        lemma_sorted_from_adjacent(views_of(dirs@));
    }
    let c = Config { plugin_dirs: dirs, yabridge_home: home, method: m };
    proof {
        assert(home_view(c) == hv);
        assert(c.wf());
        assert(parse_config(bytes@) == Some((m, home_view(c), c.dirs_view())));
    }
    Ok(c)
}

} // verus!
