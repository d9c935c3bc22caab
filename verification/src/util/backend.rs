//! Where the helper programs (`dpkg-deb`, `rpm2cpio`, ...) are taken from.
use vstd::prelude::*;
use crate::text::{chars_of, contains, contains_str_in, owned};
use crate::util::path::{join, path_exists, path_join};

verus! {

/// The directory of the backends shipped with spm.
pub const BUNDLED_DIR: &'static str = "/usr/libexec/spm/backend";

/// The path returned for a backend name that is refused.
pub const INVALID_BACKEND: &'static str = "/dev/null/spm-backend-invalid";

/// The path returned when no copy of a backend is installed.
pub const MISSING_BACKEND: &'static str = "/dev/null/spm-backend-missing";

/// The directory of the bundled backends.
pub fn bundled_dir() -> (r: &'static str)
    ensures
        r@ == BUNDLED_DIR@,
{
    BUNDLED_DIR
}

/// A backend name is refused when it is empty or holds `/`, `..` or a NUL.
pub open spec fn invalid_backend_name(name: Seq<char>) -> bool {
    name.contains('/') || contains(name, ".."@) || name.contains('\0') || name.len() == 0
}

/// The copy of a backend kept in the store: `<store_backend_dir>/<name>/bin/<name>`.
pub open spec fn store_backend_path(store_backend_dir: Seq<char>, name: Seq<char>) -> Seq<char> {
    path_join(path_join(path_join(store_backend_dir, name), "bin"@), name)
}

/// The path of backend `name`: its store copy when there is one, else the
/// bundled copy when there is one, else a path that does not exist, so that
/// running it fails.  The system `PATH` is never searched.  A refused name
/// gives another path that does not exist.
pub fn resolve(name: &str, store_backend_dir: &str) -> (r: String)
    ensures
        invalid_backend_name(name@) ==> r@ == INVALID_BACKEND@,
        !invalid_backend_name(name@) ==> r@ == store_backend_path(store_backend_dir@, name@)
            || r@ == path_join(BUNDLED_DIR@, name@) || r@ == MISSING_BACKEND@,
{
    if contains_str_in(name, "/") || contains_str_in(name, "..") || contains_str_in(name, "\0")
        || name.is_empty() {
        proof {
            reveal_strlit("/");
            reveal_strlit("\0");
            assert("/"@ =~= seq!['/']);
            assert("\0"@ =~= seq!['\0']);
            crate::text::lemma_contains_char(name@, '/');
            crate::text::lemma_contains_char(name@, '\0');
            assert(invalid_backend_name(name@));
        }
        return owned(INVALID_BACKEND);
    }
    proof {
        reveal_strlit("/");
        reveal_strlit("\0");
        assert("/"@ =~= seq!['/']);
        assert("\0"@ =~= seq!['\0']);
        crate::text::lemma_contains_char(name@, '/');
        crate::text::lemma_contains_char(name@, '\0');
        assert(!invalid_backend_name(name@));
    }
    let a = join(store_backend_dir, name);
    let b = join(a.as_str(), "bin");
    let store = join(b.as_str(), name);
    let bundled = join(BUNDLED_DIR, name);
    let store_exists = path_exists(store.as_str());
    let bundled_exists = if store_exists {
        false
    } else {
        path_exists(bundled.as_str())
    };
    pick_backend(store.as_str(), store_exists, bundled.as_str(), bundled_exists)
}

/// The backend copy used: the store copy when it exists, else the bundled
/// copy when it exists, else the path that stands for a missing backend.
pub open spec fn picked_backend(store_path: Seq<char>, store_exists: bool, bundled_path: Seq<char>, bundled_exists: bool) -> Seq<char> {
    if store_exists {
        store_path
    } else if bundled_exists {
        bundled_path
    } else {
        MISSING_BACKEND@
    }
}

/// Chooses among the copies of a backend, given which of them exist.
pub fn pick_backend(store_path: &str, store_exists: bool, bundled_path: &str, bundled_exists: bool) -> (r: String)
    ensures
        r@ == picked_backend(store_path@, store_exists, bundled_path@, bundled_exists),
{
    if store_exists {
        owned(store_path)
    } else if bundled_exists {
        owned(bundled_path)
    } else {
        owned(MISSING_BACKEND)
    }
}

} // verus!
