//! Validation of request paths against the library root (Unix path rules).
//!
//! A request path is percent-decoded, must decode to UTF-8, must be non-empty and
//! relative, may not hold a `..` component, and must carry an allowed extension. The
//! caller then joins it to the root and resolves it on disk; the resolved path must lie
//! strictly below the resolved root.
use crate::text::{
    chars_eq_ignore_ascii_case, chars_of, eq_ignore_ascii_case, hex_digit, lowercase_chars,
    to_lowercase,
};
use vstd::prelude::*;
use vstd::string::StringSliceAdditionalSpecFns;
use vstd::utf8::{decode_utf8, valid_utf8};

verus! {

/// Why a request path is refused.
#[derive(Debug, Clone, Copy, PartialEq, Eq, Structural)]
pub enum PathError {
    InvalidEncoding,
    TraversalAttempt,
    AbsolutePath,
    OutsideRoot,
    DisallowedExtension,
    NotFound,
}

impl PathError {
    /// The HTTP status that answers this refusal: 404 for a missing file, 400 otherwise.
    pub fn status_code(&self) -> (code: u16)
        ensures
            code == (if *self == PathError::NotFound {
                404u16
            } else {
                400u16
            }),
    {
        match self {
            PathError::NotFound => 404,
            _ => 400,
        }
    }

    /// The message that answers this refusal.
    pub fn message(&self) -> (m: &'static str)
        ensures
            m@ == spec_path_error_message(*self),
    {
        match self {
            PathError::InvalidEncoding => "Invalid path encoding",
            PathError::TraversalAttempt => "Path traversal not allowed",
            PathError::AbsolutePath => "Absolute paths not allowed",
            PathError::OutsideRoot => "Path outside library root",
            PathError::DisallowedExtension => "File type not allowed",
            PathError::NotFound => "File not found",
        }
    }
}

pub open spec fn spec_path_error_message(e: PathError) -> Seq<char> {
    match e {
        PathError::InvalidEncoding => "Invalid path encoding"@,
        PathError::TraversalAttempt => "Path traversal not allowed"@,
        PathError::AbsolutePath => "Absolute paths not allowed"@,
        PathError::OutsideRoot => "Path outside library root"@,
        PathError::DisallowedExtension => "File type not allowed"@,
        PathError::NotFound => "File not found"@,
    }
}

/// Extensions served by the mesh endpoint.
pub fn mesh_extensions() -> (v: Vec<&'static str>)
    ensures
        v@.len() == 2,
        v@[0]@ == "3mf"@,
        v@[1]@ == "stl"@,
{
    let mut v: Vec<&'static str> = Vec::new();
    v.push("3mf");
    v.push("stl");
    v
}

/// Extensions served by the image endpoint.
pub fn image_extensions() -> (v: Vec<&'static str>)
    ensures
        v@.len() == 3,
        v@[0]@ == "jpg"@,
        v@[1]@ == "jpeg"@,
        v@[2]@ == "png"@,
{
    let mut v: Vec<&'static str> = Vec::new();
    v.push("jpg");
    v.push("jpeg");
    v.push("png");
    v
}

/// Extensions served for download: every model and image type.
pub fn download_extensions() -> (v: Vec<&'static str>)
    ensures
        v@.len() == 5,
        v@[0]@ == "3mf"@,
        v@[1]@ == "stl"@,
        v@[2]@ == "jpg"@,
        v@[3]@ == "jpeg"@,
        v@[4]@ == "png"@,
{
    let mut v: Vec<&'static str> = Vec::new();
    v.push("3mf");
    v.push("stl");
    v.push("jpg");
    v.push("jpeg");
    v.push("png");
    v
}

/// Extensions served by the thumbnail endpoint (3MF only).
pub fn thumbnail_extensions() -> (v: Vec<&'static str>)
    ensures
        v@.len() == 1,
        v@[0]@ == "3mf"@,
{
    let mut v: Vec<&'static str> = Vec::new();
    v.push("3mf");
    v
}

/// Value of an ASCII hexadecimal digit byte.
pub open spec fn hex_byte(b: u8) -> Option<nat> {
    hex_digit(b as char)
}

/// Percent-decoding (WHATWG URL): `%` followed by two hexadecimal digits stands for the
/// byte they spell; every other byte, a lone `%` included, stands for itself.
pub open spec fn percent_decode(b: Seq<u8>) -> Seq<u8>
    decreases b.len(),
{
    if b.len() == 0 {
        Seq::empty()
    } else if b[0] == 37 && b.len() >= 3 && hex_byte(b[1]) is Some && hex_byte(b[2]) is Some {
        seq![(hex_byte(b[1])->0 * 16 + hex_byte(b[2])->0) as u8] + percent_decode(b.skip(3))
    } else {
        seq![b[0]] + percent_decode(b.skip(1))
    }
}

/// `percent_encoding::percent_decode_str(raw).decode_utf8()`. Trusted, as the crate's
/// source shows: the bytes of `raw` are percent-decoded and the result is accepted exactly
/// when it is valid UTF-8.
#[verifier::external_body]
fn percent_decode_utf8(raw: &str) -> (res: Option<Vec<char>>)
    ensures
        match res {
            Some(v) => valid_utf8(percent_decode(raw.spec_bytes())) && v@ == decode_utf8(
                percent_decode(raw.spec_bytes()),
            ),
            None => !valid_utf8(percent_decode(raw.spec_bytes())),
        },
{
    percent_encoding::percent_decode_str(raw).decode_utf8().ok().map(|c| c.chars().collect())
}

/// Position of the last `c` in `cs`, if any.
pub open spec fn last_index_of(cs: Seq<char>, c: char) -> Option<int>
    decreases cs.len(),
{
    if cs.len() == 0 {
        None
    } else if cs.last() == c {
        Some(cs.len() - 1)
    } else {
        last_index_of(cs.drop_last(), c)
    }
}

pub proof fn lemma_last_index_of(cs: Seq<char>, c: char)
    ensures
        last_index_of(cs, c) matches Some(i) ==> 0 <= i < cs.len() && cs[i] == c && forall|j: int|
            i < j < cs.len() ==> cs[j] != c,
        last_index_of(cs, c) is None ==> forall|j: int| 0 <= j < cs.len() ==> cs[j] != c,
    decreases cs.len(),
{
    if cs.len() > 0 {
        lemma_last_index_of(cs.drop_last(), c);
        assert forall|j: int| 0 <= j < cs.len() - 1 implies cs.drop_last()[j] == cs[j] by {}
    }
}

fn find_last(cs: &[char], end: usize, c: char) -> (r: Option<usize>)
    requires
        end <= cs@.len(),
    ensures
        match r {
            Some(i) => last_index_of(cs@.take(end as int), c) == Some(i as int),
            None => last_index_of(cs@.take(end as int), c) is None,
        },
{
    let mut k = end;
    while k > 0
        invariant
            k <= end <= cs@.len(),
            last_index_of(cs@.take(end as int), c) == last_index_of(cs@.take(k as int), c),
        decreases k,
    {
        assert(cs@.take(k as int).drop_last() =~= cs@.take(k - 1));
        if cs[k - 1] == c {
            return Some(k - 1);
        }
        k = k - 1;
    }
    None
}

/// `Path::extension` of a file name: the text after its last `.`, unless there is no `.`,
/// the only `.` is the first character, or the name is `..`.
pub open spec fn name_extension(name: Seq<char>) -> Option<Seq<char>> {
    if name == seq!['.', '.'] {
        None
    } else {
        match last_index_of(name, '.') {
            Some(i) => if i == 0 {
                None
            } else {
                Some(name.skip(i + 1))
            },
            None => None,
        }
    }
}

/// The extension of a file name (see [`name_extension`]).
pub fn extension_of(name: &[char]) -> (r: Option<Vec<char>>)
    ensures
        match r {
            Some(e) => name_extension(name@) == Some(e@),
            None => name_extension(name@) is None,
        },
{
    if name.len() == 2 && name[0] == '.' && name[1] == '.' {
        assert(name@ =~= seq!['.', '.']);
        return None;
    }
    assert(name@.take(name@.len() as int) =~= name@);
    proof {
        lemma_last_index_of(name@, '.');
    }
    match find_last(name, name.len(), '.') {
        Some(i) => {
            if i == 0 {
                None
            } else {
                let mut e: Vec<char> = Vec::new();
                let mut k = i + 1;
                while k < name.len()
                    invariant
                        i + 1 <= k <= name@.len(),
                        e@ == name@.subrange(i + 1, k as int),
                    decreases name@.len() - k,
                {
                    e.push(name[k]);
                    k = k + 1;
                    assert(e@ =~= name@.subrange(i + 1, k as int));
                }
                assert(e@ =~= name@.skip(i + 1));
                Some(e)
            }
        },
        None => None,
    }
}

/// A `..` component: two dots bounded by the ends of the path or by `/`.
pub open spec fn has_parent_component(p: Seq<char>) -> bool {
    exists|i: int| #[trigger] parent_component_at(p, i)
}

/// A `..` component starts at position `i` of `p`.
pub open spec fn parent_component_at(p: Seq<char>, i: int) -> bool {
    0 <= i && i + 2 <= p.len() && p[i] == '.' && p[i + 1] == '.' && (i == 0 || p[i - 1] == '/')
        && (i + 2 == p.len() || p[i + 2] == '/')
}

/// `Path::file_name` of a relative path without `..` components: its last component that
/// is neither empty nor `.`.
pub open spec fn path_file_name(p: Seq<char>) -> Option<Seq<char>>
    decreases p.len(),
{
    match last_index_of(p, '/') {
        Some(k) => {
            proof {
                lemma_last_index_of(p, '/');
            }
            let seg = p.skip(k + 1);
            if seg.len() > 0 && seg != seq!['.'] {
                Some(seg)
            } else {
                path_file_name(p.take(k))
            }
        },
        None => if p.len() > 0 && p != seq!['.'] {
            Some(p)
        } else {
            None
        },
    }
}

/// The lowercased extension of the path's file name, or the empty text when it has none.
pub open spec fn path_extension_lower(p: Seq<char>) -> Seq<char> {
    match path_file_name(p) {
        Some(n) => match name_extension(n) {
            Some(e) => lowercase_chars(e),
            None => Seq::empty(),
        },
        None => Seq::empty(),
    }
}

/// The path as the platform splits it into components: the platform's separator `sep`
/// (`/`, or `\\` on Windows, where `/` separates too) written as `/`.
pub open spec fn unify_separators(p: Seq<char>, sep: char) -> Seq<char> {
    p.map_values(|c: char| if c == sep {
        '/'
    } else {
        c
    })
}

/// A Windows drive prefix (`C:`) at the start of a path.
pub open spec fn drive_prefix(p: Seq<char>, sep: char) -> bool {
    sep == '\\' && p.len() >= 2 && p[1] == ':' && (('a' <= p[0] <= 'z') || ('A' <= p[0] <= 'Z'))
}

/// What checking a request path gives: the refusal, or the decoded relative path. The
/// path is read with the platform's separator `sep` as `Path` reads it: a leading
/// separator or a drive prefix makes it absolute, and components are split at separators.
pub open spec fn spec_check_request_path(raw: Seq<u8>, allowed: Seq<Seq<char>>, sep: char) -> Result<
    Seq<char>,
    PathError,
> {
    let d = percent_decode(raw);
    if !valid_utf8(d) {
        Err(PathError::InvalidEncoding)
    } else {
        let p = decode_utf8(d);
        let q = unify_separators(p, sep);
        if p.len() == 0 {
            Err(PathError::NotFound)
        } else if q[0] == '/' || drive_prefix(p, sep) {
            Err(PathError::AbsolutePath)
        } else if has_parent_component(q) {
            Err(PathError::TraversalAttempt)
        } else if allowed.len() > 0 && !(exists|i: int|
            0 <= i < allowed.len() && eq_ignore_ascii_case(allowed[i], path_extension_lower(q))) {
            Err(PathError::DisallowedExtension)
        } else {
            Ok(p)
        }
    }
}

pub fn has_parent_component_exec(p: &[char]) -> (r: bool)
    ensures
        r == has_parent_component(p@),
{
    let n = p.len();
    let mut i: usize = 0;
    while i < n && n - i >= 2
        invariant
            n == p@.len(),
            forall|j: int| 0 <= j < i ==> !#[trigger] parent_component_at(p@, j),
        decreases n - i,
    {
        if p[i] == '.' && p[i + 1] == '.' && (i == 0 || p[i - 1] == '/') && (i + 2 == n || p[i
            + 2] == '/') {
            assert(parent_component_at(p@, i as int));
            return true;
        }
        i = i + 1;
    }
    assert forall|j: int| !#[trigger] parent_component_at(p@, j) by {
        if 0 <= j < i {
        }
    }
    false
}

fn file_name_of(p: &[char]) -> (r: Option<Vec<char>>)
    ensures
        match r {
            Some(n) => path_file_name(p@) == Some(n@),
            None => path_file_name(p@) is None,
        },
{
    let mut end = p.len();
    assert(p@.take(end as int) =~= p@);
    loop
        invariant
            end <= p@.len(),
            path_file_name(p@) == path_file_name(p@.take(end as int)),
        decreases end,
    {
        let ghost q = p@.take(end as int);
        proof {
            lemma_last_index_of(q, '/');
        }
        match find_last(p, end, '/') {
            Some(k) => {
                let len = end - (k + 1);
                let is_dot = len == 1 && p[k + 1] == '.';
                proof {
                    assert(q.skip(k + 1) =~= p@.subrange(k + 1, end as int));
                    if len == 1 {
                        assert(q.skip(k + 1) =~= seq![p@[k + 1]]);
                    }
                    assert(q.take(k as int) =~= p@.take(k as int));
                }
                if len > 0 && !is_dot {
                    let mut seg: Vec<char> = Vec::new();
                    let mut j = k + 1;
                    while j < end
                        invariant
                            k + 1 <= j <= end <= p@.len(),
                            seg@ == p@.subrange(k + 1, j as int),
                        decreases end - j,
                    {
                        seg.push(p[j]);
                        j = j + 1;
                        assert(seg@ =~= p@.subrange(k + 1, j as int));
                    }
                    proof {
                        assert(seg@ =~= q.skip(k + 1));
                        if len == 1 {
                            assert(seg@[0] != '.');
                        }
                        assert(seg@ != seq!['.']);
                    }
                    return Some(seg);
                }
                end = k;
            },
            None => {
                let is_dot = end == 1 && p[0] == '.';
                proof {
                    if end == 1 {
                        assert(q =~= seq![p@[0]]);
                    }
                }
                if end > 0 && !is_dot {
                    let mut seg: Vec<char> = Vec::new();
                    let mut j: usize = 0;
                    while j < end
                        invariant
                            j <= end <= p@.len(),
                            seg@ == p@.take(j as int),
                        decreases end - j,
                    {
                        seg.push(p[j]);
                        j = j + 1;
                        assert(seg@ =~= p@.take(j as int));
                    }
                    return Some(seg);
                }
                return None;
            },
        }
    }
}

fn extension_lower_of(p: &[char]) -> (r: Vec<char>)
    ensures
        r@ == path_extension_lower(p@),
{
    match file_name_of(p) {
        Some(n) => match extension_of(&n) {
            Some(e) => to_lowercase(&e),
            None => Vec::new(),
        },
        None => Vec::new(),
    }
}

fn unify_separators_exec(p: &[char], sep: char) -> (q: Vec<char>)
    ensures
        q@ == unify_separators(p@, sep),
{
    let mut q: Vec<char> = Vec::new();
    let mut i: usize = 0;
    while i < p.len()
        invariant
            i <= p@.len(),
            q@ == unify_separators(p@.take(i as int), sep),
        decreases p@.len() - i,
    {
        q.push(if p[i] == sep {
            '/'
        } else {
            p[i]
        });
        i = i + 1;
        assert(q@ =~= unify_separators(p@.take(i as int), sep));
    }
    assert(p@.take(i as int) =~= p@);
    q
}

/// Decode and check a request path against the extension allowlist (an empty allowlist
/// admits every extension), with the platform's separator `sep` (see
/// [`spec_check_request_path`]). On success the decoded relative path is returned, ready
/// to be joined to the library root.
pub fn check_request_path(raw_path: &str, allowed: &[&str], sep: char) -> (res: Result<String, PathError>)
    requires
        sep == '/' || sep == '\\',
    ensures
        match res {
            Ok(s) => spec_check_request_path(raw_path.spec_bytes(), allowed@.map_values(
                |a: &str| a@,
            ), sep) == Ok::<Seq<char>, PathError>(s@),
            Err(e) => spec_check_request_path(raw_path.spec_bytes(), allowed@.map_values(
                |a: &str| a@,
            ), sep) == Err::<Seq<char>, PathError>(e),
        },
{
    let ghost allowed_chars = allowed@.map_values(|a: &str| a@);
    let decoded = match percent_decode_utf8(raw_path) {
        Some(d) => d,
        None => return Err(PathError::InvalidEncoding),
    };
    if decoded.len() == 0 {
        return Err(PathError::NotFound);
    }
    let unified = unify_separators_exec(&decoded, sep);
    let drive = sep == '\\' && decoded.len() >= 2 && decoded[1] == ':' && (('a' <= decoded[0]
        && decoded[0] <= 'z') || ('A' <= decoded[0] && decoded[0] <= 'Z'));
    if unified[0] == '/' || drive {
        return Err(PathError::AbsolutePath);
    }
    if has_parent_component_exec(&unified) {
        return Err(PathError::TraversalAttempt);
    }
    if allowed.len() > 0 {
        let ext = extension_lower_of(&unified);
        let mut found = false;
        let mut i: usize = 0;
        while i < allowed.len()
            invariant
                i <= allowed@.len(),
                allowed_chars == allowed@.map_values(|a: &str| a@),
                ext@ == path_extension_lower(unified@),
                found == exists|j: int|
                    0 <= j < i && eq_ignore_ascii_case(allowed_chars[j], ext@),
            decreases allowed@.len() - i,
        {
            let a = chars_of(allowed[i]);
            assert(allowed_chars[i as int] == allowed@[i as int]@);
            if chars_eq_ignore_ascii_case(&a, &ext) {
                found = true;
            }
            i = i + 1;
        }
        if !found {
            return Err(PathError::DisallowedExtension);
        }
    }
    Ok(crate::text::string_from_chars(&decoded))
}

/// The prefix a resolved path must start with: the resolved root followed by the
/// platform's separator `sep` (nothing is added when the root already ends with it).
pub open spec fn root_prefix(root: Seq<char>, sep: char) -> Seq<char> {
    if root.len() > 0 && root.last() == sep {
        root
    } else {
        root.push(sep)
    }
}

/// Check that a resolved path lies below the resolved library root: it must start with
/// [`root_prefix`], so that a sibling such as `/lib2` is not taken for `/lib`.
pub fn check_within_root(canonical_root: &str, canonical: &str, sep: char) -> (res: Result<(), PathError>)
    ensures
        res is Ok <==> below_root(canonical_root@, canonical@, sep),
        res matches Err(e) ==> e == PathError::OutsideRoot,
{
    let mut prefix = chars_of(canonical_root);
    if !(prefix.len() > 0 && prefix[prefix.len() - 1] == sep) {
        prefix.push(sep);
    }
    assert(prefix@ == root_prefix(canonical_root@, sep));
    let c = chars_of(canonical);
    if c.len() < prefix.len() {
        return Err(PathError::OutsideRoot);
    }
    let mut i: usize = 0;
    while i < prefix.len()
        invariant
            i <= prefix@.len() <= c@.len(),
            prefix@ == root_prefix(canonical_root@, sep),
            c@ == canonical@,
            forall|j: int| 0 <= j < i ==> c@[j] == prefix@[j],
        decreases prefix@.len() - i,
    {
        if c[i] != prefix[i] {
            assert(c@.take(prefix@.len() as int)[i as int] != prefix@[i as int]);
            return Err(PathError::OutsideRoot);
        }
        i = i + 1;
    }
    assert(c@.take(prefix@.len() as int) =~= prefix@);
    Ok(())
}

/// Whether a resolved path lies strictly below the resolved root (see [`root_prefix`]).
pub open spec fn below_root(canonical_root: Seq<char>, canonical: Seq<char>, sep: char) -> bool {
    canonical.len() >= root_prefix(canonical_root, sep).len() && canonical.take(
        root_prefix(canonical_root, sep).len() as int,
    ) == root_prefix(canonical_root, sep)
}

/// `Path::join` of a relative path onto a root: the platform's separator `sep` goes
/// between them unless the root is empty or already ends with a separator.
pub open spec fn join_path(root: Seq<char>, rel: Seq<char>, sep: char) -> Seq<char> {
    if root.len() == 0 {
        rel
    } else if root.last() == '/' || root.last() == sep {
        root + rel
    } else {
        root.push(sep) + rel
    }
}

fn join_root(root: &str, rel: &str, sep: char) -> (r: String)
    ensures
        r@ == join_path(root@, rel@, sep),
{
    let mut cs = chars_of(root);
    if cs.len() > 0 && cs[cs.len() - 1] != '/' && cs[cs.len() - 1] != sep {
        cs.push(sep);
    }
    let rs = chars_of(rel);
    let mut i: usize = 0;
    let ghost base = cs@;
    while i < rs.len()
        invariant
            i <= rs@.len(),
            rs@ == rel@,
            cs@ == base + rs@.take(i as int),
        decreases rs@.len() - i,
    {
        cs.push(rs[i]);
        i = i + 1;
        assert(cs@ =~= base + rs@.take(i as int));
    }
    assert(rs@.take(i as int) =~= rs@);
    assert(cs@ =~= join_path(root@, rel@, sep));
    crate::text::string_from_chars(&cs)
}

/// `canonicalize` resolved both the joined path and the root: the joined path to `c`,
/// the root to some `cr`, and `c` lies below `cr` exactly when `inside` holds.
pub open spec fn resolved_both<F: Fn(&str) -> Option<String>>(
    canonicalize: F,
    root: Seq<char>,
    rel: Seq<char>,
    sep: char,
    c: String,
    inside: bool,
) -> bool {
    exists|p: &str, q: &str, cr: String|
        #![trigger call_ensures(canonicalize, (p,), Some(c)), call_ensures(canonicalize, (q,), Some(cr))]
        p@ == join_path(root, rel, sep) && q@ == root && call_ensures(canonicalize, (p,), Some(c))
            && call_ensures(canonicalize, (q,), Some(cr)) && below_root(cr@, c@, sep) == inside
}

/// `canonicalize` resolved both the joined path and the root, to paths of which the first
/// does not lie below the second.
pub open spec fn resolved_outside<F: Fn(&str) -> Option<String>>(
    canonicalize: F,
    root: Seq<char>,
    rel: Seq<char>,
    sep: char,
) -> bool {
    exists|c: String| #[trigger] resolved_both(canonicalize, root, rel, sep, c, false)
}

/// `canonicalize` answered `None` for the joined path or for the root.
pub open spec fn resolution_failed<F: Fn(&str) -> Option<String>>(
    canonicalize: F,
    root: Seq<char>,
    rel: Seq<char>,
    sep: char,
) -> bool {
    (exists|p: &str|
        p@ == join_path(root, rel, sep) && #[trigger] call_ensures(canonicalize, (p,), None::<String>))
        || (exists|q: &str| q@ == root && #[trigger] call_ensures(canonicalize, (q,), None::<String>))
}

/// Validate a request path and resolve it below the library root.
///
/// The path is checked as [`check_request_path`] does; an accepted path is joined to
/// `root` and resolved by `canonicalize` (which the caller backs with the file system; it
/// answers `None` for a path that does not exist), then the root itself is resolved, and
/// the resolved path must lie below the resolved root. `sep` is the platform's path
/// separator. What `canonicalize` answers is up to the caller, so the contract states what
/// holds of every answer.
pub fn validate_path<F: Fn(&str) -> Option<String>>(
    root: &str,
    raw_path: &str,
    allowed: &[&str],
    sep: char,
    canonicalize: F,
) -> (res: Result<String, PathError>)
    requires
        sep == '/' || sep == '\\',
        forall|p: &str| call_requires(canonicalize, (p,)),
    ensures
        spec_check_request_path(raw_path.spec_bytes(), allowed@.map_values(|a: &str| a@), sep) matches Err(e)
            ==> res == Err::<String, PathError>(e),
        spec_check_request_path(raw_path.spec_bytes(), allowed@.map_values(|a: &str| a@), sep) matches Ok(rel)
            ==> match res {
            Ok(c) => resolved_both(canonicalize, root@, rel, sep, c, true),
            Err(PathError::NotFound) => resolution_failed(canonicalize, root@, rel, sep),
            Err(PathError::OutsideRoot) => resolved_outside(canonicalize, root@, rel, sep),
            Err(_) => false,
        },
{
    let rel = match check_request_path(raw_path, allowed, sep) {
        Ok(r) => r,
        Err(e) => return Err(e),
    };
    let joined = join_root(root, rel.as_str(), sep);
    let jp = joined.as_str();
    let canonical = match canonicalize(jp) {
        Some(c) => c,
        None => {
            assert(call_ensures(canonicalize, (jp,), None::<String>));
            assert(resolution_failed(canonicalize, root@, rel@, sep));
            return Err(PathError::NotFound);
        },
    };
    assert(call_ensures(canonicalize, (jp,), Some(canonical)));
    let canonical_root = match canonicalize(root) {
        Some(c) => c,
        None => {
            assert(call_ensures(canonicalize, (root,), None::<String>));
            assert(resolution_failed(canonicalize, root@, rel@, sep));
            return Err(PathError::NotFound);
        },
    };
    assert(call_ensures(canonicalize, (root,), Some(canonical_root)));
    let within = check_within_root(canonical_root.as_str(), canonical.as_str(), sep);
    let inside = within.is_ok();
    assert(resolved_both(canonicalize, root@, rel@, sep, canonical, inside));
    match within {
        Ok(()) => {
            assert(resolved_both(canonicalize, root@, rel@, sep, canonical, true));
            return Ok(canonical);
        },
        Err(e) => {
            assert(resolved_both(canonicalize, root@, rel@, sep, canonical, false));
            assert(resolved_outside(canonicalize, root@, rel@, sep));
            return Err(e);
        },
    }
}

/// Law of the path choke point: an accepted request path is non-empty and relative (no
/// leading separator, no drive prefix), has no `..` component between separators, and,
/// when there is an allowlist, its extension is on it.
pub proof fn lemma_accepted_path_is_safe(raw: Seq<u8>, allowed: Seq<Seq<char>>, sep: char)
    ensures
        spec_check_request_path(raw, allowed, sep) matches Ok(p) ==> {
            &&& p.len() > 0
            &&& unify_separators(p, sep)[0] != '/'
            &&& !drive_prefix(p, sep)
            &&& !has_parent_component(unify_separators(p, sep))
            &&& allowed.len() > 0 ==> exists|i: int|
                0 <= i < allowed.len() && eq_ignore_ascii_case(
                    allowed[i],
                    path_extension_lower(unify_separators(p, sep)),
                )
        },
{
}

/// Law of the allowlist: a request path that decodes to a non-empty, relative path without
/// `..` components is accepted, decoded, when its extension matches any entry of the
/// allowlist up to ASCII case (or when there is no allowlist).
pub proof fn lemma_allowed_path_is_accepted(raw: Seq<u8>, allowed: Seq<Seq<char>>, sep: char, i: int)
    requires
        valid_utf8(percent_decode(raw)),
        decode_utf8(percent_decode(raw)).len() > 0,
        unify_separators(decode_utf8(percent_decode(raw)), sep)[0] != '/',
        !drive_prefix(decode_utf8(percent_decode(raw)), sep),
        !has_parent_component(unify_separators(decode_utf8(percent_decode(raw)), sep)),
        allowed.len() == 0 || (0 <= i < allowed.len() && eq_ignore_ascii_case(
            allowed[i],
            path_extension_lower(unify_separators(decode_utf8(percent_decode(raw)), sep)),
        )),
    ensures
        spec_check_request_path(raw, allowed, sep) == Ok::<Seq<char>, PathError>(
            decode_utf8(percent_decode(raw)),
        ),
{
}

} // verus!
