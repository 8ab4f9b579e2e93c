//! Traversal-safe static-file resolver. Requests are resolved against an
//! in-memory view of the confinement root: a list of entries, each a relative
//! path with what the filesystem reported for it (regular file or not, the
//! size its metadata declares, and its readable content if any). The unverified
//! edge of the program builds this view from the real directory tree and keeps
//! it read-only, as the server never writes the confinement root.
use crate::bytes::{
    copy_bytes, eq_bytes, find_pattern, first_pat, lemma_byte_match, matches_at, push_bytes, DOT,
    SLASH,
};
use crate::http::byte_vec;
use vstd::prelude::*;
use vstd::string::StringSliceAdditionalSpecFns;

verus! {

/// Why a static request failed: a closed set, no silent fallback.
#[derive(Clone, Copy, PartialEq, Eq, Structural, Debug)]
pub enum StaticError {
    /// A traversal attempt or a target that is not a regular file.
    Forbidden,
    /// The resolved path has no entry under the confinement root.
    NotFound,
    /// The entry is a regular file but reading it fails.
    Io,
}

/// One path under the confinement root, as the filesystem reported it.
pub struct FileEntry {
    /// Relative path from the confinement root, `/`-separated, no leading `/`.
    pub path: Vec<u8>,
    /// Whether this is a regular file; directories and special files are not.
    pub is_file: bool,
    /// The byte size the metadata declares.
    pub size: usize,
    /// The bytes a read returns, or `None` when opening or reading fails.
    pub content: Option<Vec<u8>>,
}

/// The in-memory view of the confinement root.
pub struct DocRoot {
    pub entries: Vec<FileEntry>,
}

/// A loaded static asset: the declared length (the resource's true byte size,
/// which for HEAD exceeds the empty body), its content-type label, and the
/// body bytes.
#[derive(Debug)]
pub struct StaticAsset {
    pub declared_len: usize,
    pub content_type: &'static str,
    pub body: Vec<u8>,
}

/// The pieces of `s` between occurrences of `sep`; empty pieces are kept.
pub open spec fn split_bytes(s: Seq<u8>, sep: u8) -> Seq<Seq<u8>>
    decreases s.len(),
    via split_bytes_decreases
{
    let i = first_pat(s, seq![sep]);
    if i == s.len() {
        seq![s]
    } else {
        seq![s.take(i)] + split_bytes(s.subrange(i + 1, s.len() as int), sep)
    }
}

#[via_fn]
proof fn split_bytes_decreases(s: Seq<u8>, sep: u8) {
    crate::bytes::lemma_first_pat(s, seq![sep]);
}

/// The suffix of `s` after its last `sep`; all of `s` when `sep` is absent.
pub open spec fn after_last(s: Seq<u8>, sep: u8) -> Seq<u8>
    decreases s.len(),
    via after_last_decreases
{
    let i = first_pat(s, seq![sep]);
    if i == s.len() {
        s
    } else {
        after_last(s.subrange(i + 1, s.len() as int), sep)
    }
}

#[via_fn]
proof fn after_last_decreases(s: Seq<u8>, sep: u8) {
    crate::bytes::lemma_first_pat(s, seq![sep]);
}

/// The target contains a `..` path component.
pub open spec fn has_dotdot(t: Seq<u8>) -> bool {
    exists|i: int|
        0 <= i < split_bytes(t, SLASH).len() && split_bytes(t, SLASH)[i] == "..".spec_bytes()
}

/// A component survives sanitization: nonempty and not the no-op `.`.
pub open spec fn keeps(p: Seq<u8>) -> bool {
    p.len() > 0 && p != ".".spec_bytes()
}

/// The components that survive sanitization, in order.
pub open spec fn kept_pieces(ps: Seq<Seq<u8>>) -> Seq<Seq<u8>>
    decreases ps.len(),
{
    if ps.len() == 0 {
        Seq::empty()
    } else if keeps(ps.last()) {
        kept_pieces(ps.drop_last()) + seq![ps.last()]
    } else {
        kept_pieces(ps.drop_last())
    }
}

/// The components joined back with `/`.
pub open spec fn join_slash(ps: Seq<Seq<u8>>) -> Seq<u8>
    decreases ps.len(),
{
    if ps.len() == 0 {
        Seq::empty()
    } else if ps.len() == 1 {
        ps[0]
    } else {
        join_slash(ps.drop_last()) + seq![SLASH] + ps.last()
    }
}

/// What sanitizing a target yields: Forbidden as soon as any `..` component
/// appears anywhere (even one that would not escape the root); otherwise the
/// ordinary components, with empty and `.` components dropped, joined by `/`.
pub open spec fn sanitize_spec(t: Seq<u8>) -> Result<Seq<u8>, StaticError> {
    if has_dotdot(t) {
        Err(StaticError::Forbidden)
    } else {
        Ok(join_slash(kept_pieces(split_bytes(t, SLASH))))
    }
}

/// Strips the leading `/`s of the target and rebuilds it from its ordinary
/// components, exactly as `sanitize_spec` describes.
pub fn sanitize_target(target: &[u8]) -> (r: Result<Vec<u8>, StaticError>)
    ensures
        r matches Ok(c) ==> sanitize_spec(target@) == Ok::<Seq<u8>, StaticError>(c@),
        r matches Err(e) ==> sanitize_spec(target@) == Err::<Seq<u8>, StaticError>(e),
{
    let len = target.len();
    let sv = byte_vec(SLASH);
    let mut clean: Vec<u8> = Vec::new();
    let mut start: usize = 0;
    let ghost t = target@;
    let ghost mut done: Seq<Seq<u8>> = Seq::empty();
    proof {
        assert(t.subrange(0, len as int) =~= t);
        assert(done + split_bytes(t, SLASH) =~= split_bytes(t, SLASH));
    }
    loop
        invariant
            len == t.len(),
            t == target@,
            sv@ == seq![SLASH],
            0 <= start <= len,
            split_bytes(t, SLASH) == done + split_bytes(t.subrange(start as int, len as int), SLASH),
            forall|i: int| 0 <= i < done.len() ==> done[i] != "..".spec_bytes(),
            clean@ == join_slash(kept_pieces(done)),
            kept_pieces(done).len() == 0 <==> clean@.len() == 0,
        decreases len - start,
    {
        let suffix: &[u8] = &target[start..len];
        let ghost suf = t.subrange(start as int, len as int);
        let (piece_end, last_piece): (usize, bool) = match find_pattern(suffix, sv.as_slice()) {
            Some(k) => (start + k, false),
            None => (len, true),
        };
        let piece: &[u8] = &target[start..piece_end];
        proof {
            if last_piece {
                assert(split_bytes(suf, SLASH) == seq![suf]);
                assert(piece@ =~= suf);
            } else {
                let k = piece_end - start;
                assert(split_bytes(suf, SLASH) == seq![suf.take(k as int)] + split_bytes(
                    suf.subrange(k + 1, suf.len() as int),
                    SLASH,
                ));
                assert(piece@ =~= suf.take(k as int));
            }
        }
        if eq_bytes(piece, "..".as_bytes()) {
            proof {
                let ps = split_bytes(t, SLASH);
                assert(split_bytes(suf, SLASH)[0] == piece@);
                assert(ps[done.len() as int] == piece@);
                assert(has_dotdot(t));
            }
            return Err(StaticError::Forbidden);
        }
        let ghost done2 = done + seq![piece@];
        proof {
            assert(done2.drop_last() =~= done);
            assert(kept_pieces(done2) == if keeps(piece@) {
                kept_pieces(done) + seq![piece@]
            } else {
                kept_pieces(done)
            });
        }
        if piece.len() == 0 || eq_bytes(piece, ".".as_bytes()) {
            // dropped component: nothing to append
            proof {
                assert(!keeps(piece@));
            }
        } else {
            proof {
                assert(keeps(piece@));
            }
            if clean.len() > 0 {
                clean.push(SLASH);
            }
            push_bytes(&mut clean, piece);
            proof {
                let ks = kept_pieces(done);
                let ks2 = kept_pieces(done2);
                assert(ks2.drop_last() =~= ks);
                assert(ks2.last() == piece@);
                if ks.len() == 0 {
                    assert(clean@ =~= join_slash(ks2));
                } else {
                    assert(clean@ =~= join_slash(ks) + seq![SLASH] + piece@);
                    assert(clean@ =~= join_slash(ks2));
                }
            }
        }
        if last_piece {
            proof {
                assert(split_bytes(suf, SLASH) =~= seq![piece@]);
                assert(split_bytes(t, SLASH) =~= done2);
                assert(!has_dotdot(t));
            }
            return Ok(clean);
        }
        proof {
            let rest = split_bytes(t.subrange(piece_end + 1, len as int), SLASH);
            assert(t.subrange(piece_end + 1, len as int) =~= suf.subrange(
                piece_end - start + 1,
                suf.len() as int,
            ));
            assert(done + split_bytes(suf, SLASH) =~= done2 + rest);
            done = done2;
        }
        start = piece_end + 1;
    }
}

/// An entry's path begins with `.` only through its file name, so an extension
/// exists exactly when the file name has a `.` past its first byte.
pub open spec fn has_ext(name: Seq<u8>) -> bool {
    exists|i: int| 1 <= i < name.len() && name[i] == DOT
}

/// The content-type label for an extension, from the closed table.
pub open spec fn ctype_of_ext(e: Seq<u8>) -> Seq<u8> {
    if e == "html".spec_bytes() || e == "htm".spec_bytes() {
        "text/html; charset=utf-8".spec_bytes()
    } else if e == "css".spec_bytes() {
        "text/css; charset=utf-8".spec_bytes()
    } else if e == "js".spec_bytes() {
        "application/javascript; charset=utf-8".spec_bytes()
    } else if e == "json".spec_bytes() {
        "application/json; charset=utf-8".spec_bytes()
    } else if e == "txt".spec_bytes() {
        "text/plain; charset=utf-8".spec_bytes()
    } else if e == "png".spec_bytes() {
        "image/png".spec_bytes()
    } else if e == "jpg".spec_bytes() || e == "jpeg".spec_bytes() {
        "image/jpeg".spec_bytes()
    } else if e == "gif".spec_bytes() {
        "image/gif".spec_bytes()
    } else if e == "svg".spec_bytes() {
        "image/svg+xml".spec_bytes()
    } else {
        "application/octet-stream".spec_bytes()
    }
}

/// The content-type label for a path: its file name's extension against the
/// closed table, the generic binary type when there is none.
pub open spec fn ctype_bytes(path: Seq<u8>) -> Seq<u8> {
    let name = after_last(path, SLASH);
    if has_ext(name) {
        ctype_of_ext(after_last(name, DOT))
    } else {
        "application/octet-stream".spec_bytes()
    }
}

/// The suffix of `buf` after the last occurrence of `sep`, as an index into
/// `buf`; `0` when `sep` is absent.
fn after_last_start(buf: &[u8], sep: u8) -> (r: usize)
    ensures
        r <= buf@.len(),
        buf@.subrange(r as int, buf@.len() as int) == after_last(buf@, sep),
        r > 0 ==> buf@[r - 1] == sep,
        forall|i: int| r <= i < buf@.len() ==> buf@[i] != sep,
{
    let len = buf.len();
    let sv = byte_vec(sep);
    let mut start: usize = 0;
    proof {
        assert(buf@.subrange(0, len as int) =~= buf@);
    }
    loop
        invariant
            len == buf@.len(),
            sv@ == seq![sep],
            0 <= start <= len,
            after_last(buf@, sep) == after_last(buf@.subrange(start as int, len as int), sep),
            start > 0 ==> buf@[start as int - 1] == sep,
        decreases len - start,
    {
        let suffix: &[u8] = &buf[start..len];
        let ghost suf = buf@.subrange(start as int, len as int);
        match find_pattern(suffix, sv.as_slice()) {
            Some(k) => {
                proof {
                    assert(after_last(suf, sep) == after_last(
                        suf.subrange(k + 1, suf.len() as int),
                        sep,
                    ));
                    assert(suf.subrange(k + 1, suf.len() as int) =~= buf@.subrange(
                        start + k + 1,
                        len as int,
                    ));
                    assert(suf[k as int] == sep) by {
                        lemma_byte_match(suf, sep, k as int);
                    }
                }
                start = start + k + 1;
            },
            None => {
                proof {
                    assert(after_last(suf, sep) == suf);
                    assert forall|i: int| start <= i < len implies buf@[i] != sep by {
                        lemma_byte_match(suf, sep, i - start);
                        assert(!matches_at(suf, seq![sep], i - start));
                    }
                }
                return start;
            },
        }
    }
}

/// Guesses the content type of a path from its file name's extension, against
/// the closed table that `ctype_of_ext` states.
pub fn guess_content_type(path: &[u8]) -> (r: &'static str)
    ensures
        r.spec_bytes() == ctype_bytes(path@),
{
    let name_start = after_last_start(path, SLASH);
    let name: &[u8] = &path[name_start..path.len()];
    let ghost nm = after_last(path@, SLASH);
    let ext_start = after_last_start(name, DOT);
    if ext_start < 2 {
        // no `.` at all, or only the leading one of a hidden file
        proof {
            assert(!has_ext(nm)) by {
                assert forall|i: int| 1 <= i < nm.len() implies nm[i] != DOT by {
                    if ext_start == 0 {
                        assert(nm[i] != DOT);
                    } else {
                        assert(i >= ext_start);
                    }
                }
            }
        }
        return "application/octet-stream";
    }
    proof {
        assert(has_ext(nm)) by {
            assert(nm[ext_start - 1] == DOT);
        }
    }
    let ext: &[u8] = &name[ext_start..name.len()];
    proof {
        assert(ext@ == after_last(nm, DOT));
    }
    if eq_bytes(ext, "html".as_bytes()) || eq_bytes(ext, "htm".as_bytes()) {
        "text/html; charset=utf-8"
    } else if eq_bytes(ext, "css".as_bytes()) {
        "text/css; charset=utf-8"
    } else if eq_bytes(ext, "js".as_bytes()) {
        "application/javascript; charset=utf-8"
    } else if eq_bytes(ext, "json".as_bytes()) {
        "application/json; charset=utf-8"
    } else if eq_bytes(ext, "txt".as_bytes()) {
        "text/plain; charset=utf-8"
    } else if eq_bytes(ext, "png".as_bytes()) {
        "image/png"
    } else if eq_bytes(ext, "jpg".as_bytes()) || eq_bytes(ext, "jpeg".as_bytes()) {
        "image/jpeg"
    } else if eq_bytes(ext, "gif".as_bytes()) {
        "image/gif"
    } else if eq_bytes(ext, "svg".as_bytes()) {
        "image/svg+xml"
    } else {
        "application/octet-stream"
    }
}

/// The first entry whose path is `path`, scanning in order.
pub open spec fn find_entry(es: Seq<FileEntry>, path: Seq<u8>) -> Option<FileEntry>
    decreases es.len(),
{
    if es.len() == 0 {
        None
    } else if es[0].path@ == path {
        Some(es[0])
    } else {
        find_entry(es.subrange(1, es.len() as int), path)
    }
}

/// Looks the path up in the view of the confinement root, returning the index
/// of its entry.
pub fn resolve_file(root: &DocRoot, path: &[u8]) -> (r: Option<usize>)
    ensures
        match r {
            Some(i) => i < root.entries@.len() && find_entry(root.entries@, path@) == Some(
                root.entries@[i as int],
            ),
            None => find_entry(root.entries@, path@) is None,
        },
{
    let n = root.entries.len();
    let mut i: usize = 0;
    proof {
        assert(root.entries@.subrange(0, n as int) =~= root.entries@);
    }
    while i < n
        invariant
            n == root.entries@.len(),
            0 <= i <= n,
            find_entry(root.entries@, path@) == find_entry(
                root.entries@.subrange(i as int, n as int),
                path@,
            ),
        decreases n - i,
    {
        let ghost tail = root.entries@.subrange(i as int, n as int);
        if eq_bytes(root.entries[i].path.as_slice(), path) {
            proof {
                assert(tail[0] == root.entries@[i as int]);
            }
            return Some(i);
        }
        proof {
            assert(tail[0] == root.entries@[i as int]);
            assert(tail.subrange(1, tail.len() as int) =~= root.entries@.subrange(
                i + 1,
                n as int,
            ));
        }
        i += 1;
    }
    None
}

/// The path actually looked up: an empty cleaned target falls back to the
/// default document.
pub open spec fn effective_path(clean: Seq<u8>) -> Seq<u8> {
    if clean.len() == 0 {
        "index.html".spec_bytes()
    } else {
        clean
    }
}

/// What loading a target from the view yields: the declared length, the
/// content-type label and the body bytes, or the error. Sanitization failures
/// propagate; a missing entry is NotFound; anything but a regular file is
/// Forbidden; HEAD takes an empty body; GET takes the content, reading at most
/// the declared size (a bounded read, guarding against a file that grew), and
/// is Io when the content cannot be read.
pub open spec fn load_spec(es: Seq<FileEntry>, target: Seq<u8>, head_only: bool) -> Result<
    (nat, Seq<u8>, Seq<u8>),
    StaticError,
> {
    match sanitize_spec(target) {
        Err(e) => Err(e),
        Ok(clean) => {
            let path = effective_path(clean);
            match find_entry(es, path) {
                None => Err(StaticError::NotFound),
                Some(ent) => {
                    if !ent.is_file {
                        Err(StaticError::Forbidden)
                    } else if head_only {
                        Ok((ent.size as nat, ctype_bytes(path), Seq::empty()))
                    } else {
                        match ent.content {
                            None => Err(StaticError::Io),
                            Some(d) => Ok(
                                (
                                    ent.size as nat,
                                    ctype_bytes(path),
                                    if d@.len() <= ent.size {
                                        d@
                                    } else {
                                        d@.take(ent.size as int)
                                    },
                                ),
                            ),
                        }
                    }
                },
            }
        },
    }
}

fn load_impl(root: &DocRoot, target: &[u8], head_only: bool) -> (r: Result<
    StaticAsset,
    StaticError,
>)
    ensures
        r is Ok <==> load_spec(root.entries@, target@, head_only) is Ok,
        r matches Ok(a) ==> load_spec(root.entries@, target@, head_only) == Ok::<
            (nat, Seq<u8>, Seq<u8>),
            StaticError,
        >((a.declared_len as nat, a.content_type.spec_bytes(), a.body@)),
        r matches Err(e) ==> load_spec(root.entries@, target@, head_only) == Err::<
            (nat, Seq<u8>, Seq<u8>),
            StaticError,
        >(e),
{
    let clean = match sanitize_target(target) {
        Ok(c) => c,
        Err(e) => {
            return Err(e);
        },
    };
    let path: &[u8] = if clean.len() == 0 {
        "index.html".as_bytes()
    } else {
        clean.as_slice()
    };
    let idx = match resolve_file(root, path) {
        Some(i) => i,
        None => {
            return Err(StaticError::NotFound);
        },
    };
    let ent = &root.entries[idx];
    if !ent.is_file {
        return Err(StaticError::Forbidden);
    }
    let content_type = guess_content_type(path);
    let declared_len = ent.size;
    let body: Vec<u8> = if head_only {
        Vec::new()
    } else {
        match &ent.content {
            None => {
                return Err(StaticError::Io);
            },
            Some(d) => {
                // bounded read: at most the declared size
                let ds: &[u8] = d.as_slice();
                if ds.len() <= declared_len {
                    copy_bytes(ds)
                } else {
                    copy_bytes(&ds[0..declared_len])
                }
            },
        }
    };
    Ok(StaticAsset { declared_len, content_type, body })
}

/// Loads a target for GET: the body carries the file bytes.
pub fn load_get(root: &DocRoot, target: &[u8]) -> (r: Result<StaticAsset, StaticError>)
    ensures
        r is Ok <==> load_spec(root.entries@, target@, false) is Ok,
        r matches Ok(a) ==> load_spec(root.entries@, target@, false) == Ok::<
            (nat, Seq<u8>, Seq<u8>),
            StaticError,
        >((a.declared_len as nat, a.content_type.spec_bytes(), a.body@)),
        r matches Err(e) ==> load_spec(root.entries@, target@, false) == Err::<
            (nat, Seq<u8>, Seq<u8>),
            StaticError,
        >(e),
{
    load_impl(root, target, false)
}

/// Loads a target for HEAD: same outcome as GET but an empty body, except that
/// HEAD never reads the content and so cannot fail with Io.
pub fn load_head(root: &DocRoot, target: &[u8]) -> (r: Result<StaticAsset, StaticError>)
    ensures
        r is Ok <==> load_spec(root.entries@, target@, true) is Ok,
        r matches Ok(a) ==> load_spec(root.entries@, target@, true) == Ok::<
            (nat, Seq<u8>, Seq<u8>),
            StaticError,
        >((a.declared_len as nat, a.content_type.spec_bytes(), a.body@)),
        r matches Err(e) ==> load_spec(root.entries@, target@, true) == Err::<
            (nat, Seq<u8>, Seq<u8>),
            StaticError,
        >(e),
{
    load_impl(root, target, true)
}

/// A target with a `..` component anywhere resolves to Forbidden, for GET and
/// HEAD alike, whatever the confinement root holds.
pub proof fn lemma_dotdot_always_forbidden(es: Seq<FileEntry>, target: Seq<u8>, head_only: bool)
    requires
        has_dotdot(target),
    ensures
        load_spec(es, target, head_only) == Err::<(nat, Seq<u8>, Seq<u8>), StaticError>(
            StaticError::Forbidden,
        ),
{
}

/// GET on a regular, readable, unmodified file (its content is exactly the
/// size the metadata declares) serves the file's bytes verbatim with that size
/// declared; HEAD on the same target declares the same size and type over an
/// empty body.
pub proof fn lemma_get_serves_file_bytes(es: Seq<FileEntry>, target: Seq<u8>, ent: FileEntry)
    requires
        sanitize_spec(target) is Ok,
        find_entry(es, effective_path(sanitize_spec(target)->Ok_0)) == Some(ent),
        ent.is_file,
        ent.content is Some,
        ent.content->Some_0@.len() == ent.size,
    ensures
        load_spec(es, target, false) == Ok::<(nat, Seq<u8>, Seq<u8>), StaticError>(
            (
                ent.size as nat,
                ctype_bytes(effective_path(sanitize_spec(target)->Ok_0)),
                ent.content->Some_0@,
            ),
        ),
        load_spec(es, target, true) == Ok::<(nat, Seq<u8>, Seq<u8>), StaticError>(
            (
                ent.size as nat,
                ctype_bytes(effective_path(sanitize_spec(target)->Ok_0)),
                Seq::<u8>::empty(),
            ),
        ),
{
}

} // verus!
