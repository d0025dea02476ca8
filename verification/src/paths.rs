//! File names under a base directory.
use vstd::prelude::*;

verus! {

/// `name` is an absolute Unix path.
pub open spec fn is_absolute(name: Seq<char>) -> bool {
    name.len() > 0 && name[0] == '/'
}

/// `name` joined to `base` as a Unix path: an absolute `name` replaces `base`;
/// otherwise one `/` separates them, unless `base` is empty or already ends
/// in `/`.
pub open spec fn joined(base: Seq<char>, name: Seq<char>) -> Seq<char> {
    if is_absolute(name) {
        name
    } else if base.len() == 0 || base.last() == '/' {
        base + name
    } else {
        base + seq!['/'] + name
    }
}

/// `std::path::Path::join` of `base` and `name`, read back as a string.
///
/// Claimed, as `Path::join` (through `PathBuf::push`) does on Unix: an
/// absolute `name` replaces `base`; a relative `name` is appended to `base`,
/// with one `/` between them unless `base` is empty or already ends in `/`.
#[verifier::external_body]
pub(crate) fn join_path(base: &str, name: &str) -> (r: String)
    ensures
        r@ == joined(base@, name@),
{
    std::path::Path::new(base).join(name).to_string_lossy().into_owned()
}

/// A name made of a stem and a suffix that starts with `_` or `.` is absolute
/// exactly when the stem is.
pub proof fn lemma_absolute_after_suffix(stem: Seq<char>, suffix: Seq<char>)
    requires
        suffix.len() > 0,
        suffix[0] != '/',
    ensures
        is_absolute(stem + suffix) == is_absolute(stem),
{
    if stem.len() > 0 {
        assert((stem + suffix)[0] == stem[0]);
    } else {
        assert((stem + suffix)[0] == suffix[0]);
    }
}

/// Names made by one suffix differ when the stems differ.
pub proof fn lemma_suffix_injective(a: Seq<char>, b: Seq<char>, suffix: Seq<char>)
    requires
        a != b,
    ensures
        a + suffix != b + suffix,
{
    if a + suffix == b + suffix {
        assert((a + suffix).len() == (b + suffix).len());
        assert(a =~= (a + suffix).take(a.len() as int));
        assert(b =~= (b + suffix).take(b.len() as int));
    }
}

/// Distinct relative names joined to one base give distinct paths.
pub proof fn lemma_join_injective(base: Seq<char>, a: Seq<char>, b: Seq<char>)
    requires
        a != b,
        !is_absolute(a),
        !is_absolute(b),
    ensures
        joined(base, a) != joined(base, b),
{
    let p = if base.len() == 0 || base.last() == '/' { base } else { base + seq!['/'] };
    assert(joined(base, a) == p + a);
    assert(joined(base, b) == p + b);
    if p + a == p + b {
        assert(a =~= (p + a).skip(p.len() as int));
        assert(b =~= (p + b).skip(p.len() as int));
    }
}

/// Distinct names made by one suffix from relative stems give distinct paths
/// under one base: the rooms or conversations they name are isolated.
pub proof fn lemma_suffixed_paths_distinct(base: Seq<char>, a: Seq<char>, b: Seq<char>, suffix: Seq<char>)
    requires
        a != b,
        !is_absolute(a),
        !is_absolute(b),
        suffix.len() > 0,
        suffix[0] != '/',
    ensures
        a + suffix != b + suffix,
        joined(base, a + suffix) != joined(base, b + suffix),
{
    lemma_suffix_injective(a, b, suffix);
    lemma_absolute_after_suffix(a, suffix);
    lemma_absolute_after_suffix(b, suffix);
    lemma_join_injective(base, a + suffix, b + suffix);
}

/// A joined path ends with the name, and a relative name keeps the base in
/// front of it, with at most one separator between them.
pub proof fn lemma_joined_shape(base: Seq<char>, name: Seq<char>)
    ensures
        joined(base, name).len() >= name.len(),
        joined(base, name).skip(joined(base, name).len() - name.len()) == name,
        !is_absolute(name) ==> joined(base, name).take(base.len() as int) == base,
        !is_absolute(name) ==> joined(base, name).len() == base.len() + name.len() || joined(
            base,
            name,
        ).len() == base.len() + 1 + name.len(),
{
    let j = joined(base, name);
    assert(j.skip(j.len() - name.len()) =~= name);
    if !is_absolute(name) {
        assert(j.take(base.len() as int) =~= base);
    }
}

} // verus!
