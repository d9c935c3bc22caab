//! The content-addressed store: where packages live on disk.
use vstd::prelude::*;
use vstd::string::StringSliceAdditionalSpecFns;
use vstd::utf8::{encode_utf8, is_char_boundary};
use crate::error::{message, SpmError, SpmResult};
use crate::text::{chars_of, contains, contains_str_in, next_piece, owned, push_str, same, split};
use crate::types::package::PackageFormat;
use crate::util::path::{file_name, file_name_of, join, path_join};

verus! {

/// The store subdirectory of a format.
pub open spec fn origin_name(format: PackageFormat) -> Seq<char> {
    match format {
        PackageFormat::Deb => "deb"@,
        PackageFormat::Rpm => "rpm"@,
        PackageFormat::Sam => "sam"@,
    }
}

/// The store subdirectory of a format: `deb`, `rpm` or `sam`.
pub fn origin_from_format(format: &PackageFormat) -> (r: &'static str)
    ensures
        r@ == origin_name(*format),
{
    match format {
        PackageFormat::Deb => "deb",
        PackageFormat::Rpm => "rpm",
        PackageFormat::Sam => "sam",
    }
}

/// Whether a package of `format` is foreign to a host whose native format
/// is `host`.
pub fn is_cross_distro(format: &PackageFormat, host: &PackageFormat) -> (r: bool)
    ensures
        r == (*format != *host),
{
    *format != *host
}

/// A path goes up a directory when one of its components is `..`.
pub open spec fn has_parent_component(path: Seq<char>) -> bool {
    split(path, '/').contains(".."@)
}

/// The message that refuses a path.
pub open spec fn traversal_text(path: Seq<char>) -> Seq<char> {
    "Path traversal detected in package file: '"@ + path + seq!['\'']
}

/// Refuses a package path that would climb out of its directory.
pub fn sanitize_relative(path: &str) -> (r: SpmResult<()>)
    ensures
        r is Ok <==> !has_parent_component(path@),
        r is Err ==> (r matches Err(SpmError::Other(m)) && m@ == traversal_text(path@)),
{
    let v = chars_of(path);
    let n = v.len();
    let dots = chars_of("..");
    let ghost all = split(path@, '/');
    let mut pos: usize = 0;
    proof {
        assert(v@.subrange(0, n as int) =~= path@);
    }
    loop
        invariant
            pos <= n == v.len(),
            v@ == path@,
            dots@ == ".."@,
            all == split(path@, '/'),
            all.contains(".."@) == split(v@.subrange(pos as int, n as int), '/').contains(".."@),
        decreases n - pos,
    {
        let ghost ps = split(v@.subrange(pos as int, n as int), '/');
        let (e, more) = next_piece(&v, pos, n, '/');
        if same(&v, pos, e, dots.as_slice()) {
            assert(ps[0] == ".."@);
            let mut msg = message("Path traversal detected in package file: '");
            push_str(&mut msg, path);
            msg.push('\'');
            assert(msg@ =~= traversal_text(path@));
            return Err(SpmError::Other(msg));
        }
        if !more {
            proof {
                assert(ps =~= seq![v@.subrange(pos as int, n as int)]);
            }
            return Ok(());
        }
        proof {
            let rest = split(v@.subrange(e + 1, n as int), '/');
            assert(ps == seq![v@.subrange(pos as int, e as int)] + rest);
            assert(ps.contains(".."@) == rest.contains(".."@)) by {
                if ps.contains(".."@) {
                    let i = choose|i: int| 0 <= i < ps.len() && ps[i] == ".."@;
                    if i > 0 {
                        assert(rest[i - 1] == ".."@);
                    }
                }
                if rest.contains(".."@) {
                    let i = choose|i: int| 0 <= i < rest.len() && rest[i] == ".."@;
                    assert(ps[i + 1] == ".."@);
                }
            }
        }
        pos = e + 1;
    }
}

/// `<base>/store`.
pub open spec fn store_dir_text(base: Seq<char>) -> Seq<char> {
    path_join(base, "store"@)
}

/// The root of the store under the database directory `base`.
pub fn store_dir(base: &str) -> (r: String)
    ensures
        r@ == store_dir_text(base@),
{
    join(base, "store")
}

/// The store directory of one origin.
pub fn store_dir_for_origin(base: &str, origin: &str) -> (r: String)
    ensures
        r@ == path_join(store_dir_text(base@), origin@),
{
    let d = store_dir(base);
    join(d.as_str(), origin)
}

fn sharded_path(dir: &str, hash: &str) -> (r: String)
    requires
        hash.spec_bytes().len() <= usize::MAX,
        hash.spec_bytes().len() >= 2 ==> is_char_boundary(hash.spec_bytes(), 2),
    ensures
        hash.spec_bytes().len() < 2 ==> r@ == path_join(dir@, hash@),
        hash.spec_bytes().len() >= 2 ==> exists|p: Seq<char>| encode_utf8(p) == hash.spec_bytes().subrange(0, 2)
            && r@ == path_join(path_join(dir@, p), hash@),
{
    if hash.len() < 2 {
        return join(dir, hash);
    }
    let (head, _tail) = hash.split_at(2);
    let d = join(dir, head);
    let r = join(d.as_str(), hash);
    proof {
        assert(encode_utf8(head@) == hash.spec_bytes().subrange(0, 2));
    }
    r
}

/// Where the package with content hash `hash` is kept in the store of
/// `origin`: `<base>/store/<origin>/<first two bytes>/<hash>`; the origin
/// comes first, as in `store_package_dir_for_origin(base, "deb", "abc")`.
pub fn store_package_dir_for_origin(base: &str, origin: &str, hash: &str) -> (r: String)
    requires
        hash.spec_bytes().len() <= usize::MAX,
        hash.spec_bytes().len() >= 2 ==> is_char_boundary(hash.spec_bytes(), 2),
    ensures
        hash.spec_bytes().len() < 2 ==> r@ == path_join(path_join(store_dir_text(base@), origin@), hash@),
        hash.spec_bytes().len() >= 2 ==> exists|p: Seq<char>| encode_utf8(p) == hash.spec_bytes().subrange(0, 2)
            && r@ == path_join(path_join(path_join(store_dir_text(base@), origin@), p), hash@),
{
    let d = store_dir_for_origin(base, origin);
    sharded_path(d.as_str(), hash)
}

/// Where the package with content hash `hash` is kept in the store without
/// an origin level (the older layout).
pub fn store_package_dir(base: &str, hash: &str) -> (r: String)
    requires
        hash.spec_bytes().len() <= usize::MAX,
        hash.spec_bytes().len() >= 2 ==> is_char_boundary(hash.spec_bytes(), 2),
    ensures
        hash.spec_bytes().len() < 2 ==> r@ == path_join(store_dir_text(base@), hash@),
        hash.spec_bytes().len() >= 2 ==> exists|p: Seq<char>| encode_utf8(p) == hash.spec_bytes().subrange(0, 2)
            && r@ == path_join(path_join(store_dir_text(base@), p), hash@),
{
    let d = store_dir(base);
    sharded_path(d.as_str(), hash)
}

/// A shared library: its file name holds `.so` and it lies below a `lib` or
/// `lib64` directory.
pub open spec fn library_file(path: Seq<char>) -> bool {
    let name = match file_name_of(path) {
        Some(x) => x,
        None => Seq::empty(),
    };
    contains(name, ".so"@) && (contains(path, "/lib/"@) || contains(path, "/lib64/"@))
}

pub fn is_library_file(path: &str) -> (r: bool)
    ensures
        r == library_file(path@),
{
    let name = match file_name(path) {
        Some(x) => x,
        None => String::new(),
    };
    contains_str_in(name.as_str(), ".so") && (contains_str_in(path, "/lib/") || contains_str_in(path, "/lib64/"))
}

/// A link from the system tree into the store.
#[derive(Debug, Clone)]
pub struct SymlinkRecord {
    pub fhs_path: String,
    pub store_path: String,
}

} // verus!
