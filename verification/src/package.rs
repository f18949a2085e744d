//! Packages, their content hash and their base name.
//!
//! A package's hash is the SHA-256 digest of a canonical text made of its
//! build script, its fetch list and the hashes of its dependencies, in order.
//! Packages live in a [`PackageGraph`]: an arena in which each package names
//! its dependencies by index, and every dependency stands before its
//! dependents.

use vstd::prelude::*;
use vstd::utf8::encode_utf8;
use crate::digest::{hex_spec, sha256, sha256_hex};
use crate::error::{MagError, MagErrorView};
use crate::text::{concat2, str_contains_char};

verus! {

/// A declared external input of a package. Its `sha256` is its identity.
#[derive(Debug)]
pub struct FetchResource {
    pub filename: String,
    pub sha256: String,
    pub urls: Vec<String>,
}

/// The mathematical value of a [`FetchResource`].
pub struct FetchResourceView {
    pub filename: Seq<char>,
    pub sha256: Seq<char>,
    pub urls: Seq<Seq<char>>,
}

/// The character sequences held by a sequence of strings.
pub open spec fn strings_view(v: Seq<String>) -> Seq<Seq<char>> {
    Seq::new(v.len(), |i: int| v[i]@)
}

impl View for FetchResource {
    type V = FetchResourceView;

    open spec fn view(&self) -> FetchResourceView {
        FetchResourceView {
            filename: self.filename@,
            sha256: self.sha256@,
            urls: strings_view(self.urls@),
        }
    }
}

/// The values of a list of fetch resources.
pub open spec fn fetches_view(v: Seq<FetchResource>) -> Seq<FetchResourceView> {
    Seq::new(v.len(), |i: int| v[i]@)
}

/// A copy of a list of strings.
pub fn clone_strings(v: &Vec<String>) -> (out: Vec<String>)
    ensures
        strings_view(out@) == strings_view(v@),
{
    let mut out: Vec<String> = Vec::new();
    let mut i: usize = 0;
    while i < v.len()
        invariant
            i <= v.len(),
            out.len() == i,
            forall|k: int| 0 <= k < i ==> out@[k]@ == v@[k]@,
        decreases v.len() - i,
    {
        out.push(v[i].clone());
        i = i + 1;
    }
    assert(strings_view(out@) =~= strings_view(v@));
    out
}

impl Clone for FetchResource {
    fn clone(&self) -> (out: Self)
        ensures
            out@ == self@,
    {
        FetchResource {
            filename: self.filename.clone(),
            sha256: self.sha256.clone(),
            urls: clone_strings(&self.urls),
        }
    }
}

/// A node of the build graph.
#[derive(Debug)]
pub struct Package {
    /// The display name, where the manifest gave one.
    pub name: Option<String>,
    /// The build script: shell source, empty, or the word `untar`.
    pub build: String,
    /// The content hash, in lower-case hexadecimal.
    pub hash: String,
    /// The packages needed when this one runs, by index in the graph.
    pub run_deps: Vec<usize>,
    /// The packages needed while this one is built, by index in the graph.
    pub build_deps: Vec<usize>,
    /// The external inputs, in the order in which they are hashed.
    pub fetch: Vec<FetchResource>,
}

/// The mathematical value of a [`Package`].
pub struct PackageView {
    pub name: Option<Seq<char>>,
    pub build: Seq<char>,
    pub hash: Seq<char>,
    pub run_deps: Seq<usize>,
    pub build_deps: Seq<usize>,
    pub fetch: Seq<FetchResourceView>,
}

impl View for Package {
    type V = PackageView;

    open spec fn view(&self) -> PackageView {
        PackageView {
            name: match self.name {
                Some(n) => Some(n@),
                None => None,
            },
            build: self.build@,
            hash: self.hash@,
            run_deps: self.run_deps@,
            build_deps: self.build_deps@,
            fetch: fetches_view(self.fetch@),
        }
    }
}

/// The parts joined end to end.
pub open spec fn concat_all(parts: Seq<Seq<char>>) -> Seq<char>
    decreases parts.len(),
{
    if parts.len() == 0 {
        Seq::empty()
    } else {
        concat_all(parts.drop_last()) + parts.last()
    }
}

/// The fetch list as it enters the hash: each file name and digest, each closed by a NUL.
pub open spec fn fetch_part(fetch: Seq<FetchResourceView>) -> Seq<char>
    decreases fetch.len(),
{
    if fetch.len() == 0 {
        Seq::empty()
    } else {
        fetch_part(fetch.drop_last()) + fetch.last().filename + "\0"@ + fetch.last().sha256
            + "\0"@
    }
}

/// The canonical text whose digest is the package hash.
pub open spec fn hash_preimage(
    build: Seq<char>,
    fetch: Seq<FetchResourceView>,
    run_hashes: Seq<Seq<char>>,
    build_hashes: Seq<Seq<char>>,
) -> Seq<char> {
    "build:"@ + build + "\0fetch\0"@ + fetch_part(fetch) + "\0run\0"@ + concat_all(run_hashes)
        + "\0build\0"@ + concat_all(build_hashes)
}

/// The content hash of a package: SHA-256 over the canonical text in UTF-8, in hexadecimal.
pub open spec fn package_hash(
    build: Seq<char>,
    fetch: Seq<FetchResourceView>,
    run_hashes: Seq<Seq<char>>,
    build_hashes: Seq<Seq<char>>,
) -> Seq<char> {
    hex_spec(sha256(encode_utf8(hash_preimage(build, fetch, run_hashes, build_hashes))))
}

/// The name under which every file of a package is stored.
pub open spec fn base_name_spec(name: Option<Seq<char>>, hash: Seq<char>) -> Seq<char> {
    match name {
        Some(n) => if n.len() > 0 {
            n + "-"@ + hash
        } else {
            "pkg-"@ + hash
        },
        None => "pkg-"@ + hash,
    }
}

/// What is wrong with a package name, if anything.
pub open spec fn name_defect(name: Seq<char>) -> Option<Seq<char>> {
    if name.len() == 0 {
        Some("package name must not be empty when provided"@)
    } else if name.contains('/') {
        Some("package name must not contain '/' characters"@)
    } else if name.contains('\n') || name.contains('\r') {
        Some("package name must not contain newline characters"@)
    } else {
        None
    }
}

/// A display name is valid when it is not empty and holds no slash and no line break.
pub open spec fn valid_name(name: Seq<char>) -> bool {
    name.len() > 0 && !name.contains('/') && !name.contains('\n') && !name.contains('\r')
}

/// Accepts exactly the valid display names; a rejected one gets the
/// first defect found, reported at the path `at`.
pub fn validate_package_name(name: &str, at: &str) -> (r: Result<(), MagError>)
    ensures
        r is Ok <==> valid_name(name@),
        match r {
            Ok(_) => name_defect(name@) is None,
            Err(e) => name_defect(name@) is Some && e@ == (MagErrorView::Evaluation {
                context: at@,
                message: name_defect(name@)->0,
            }),
        },
{
    let complaint = if name.is_empty() {
        "package name must not be empty when provided"
    } else if str_contains_char(name, '/') {
        "package name must not contain '/' characters"
    } else if str_contains_char(name, '\n') || str_contains_char(name, '\r') {
        "package name must not contain newline characters"
    } else {
        return Ok(());
    };
    Err(
        MagError::Evaluation {
            context: String::from_str(at),
            message: String::from_str(complaint),
        },
    )
}

/// Appends every string of `parts` to `out`.
fn append_all(out: &mut String, parts: &Vec<String>)
    ensures
        final(out)@ == old(out)@ + concat_all(strings_view(parts@)),
{
    let ghost start = out@;
    let mut i: usize = 0;
    assert(strings_view(parts@).take(0) =~= Seq::<Seq<char>>::empty());
    assert(out@ =~= start + concat_all(strings_view(parts@).take(0)));
    while i < parts.len()
        invariant
            i <= parts.len(),
            out@ == start + concat_all(strings_view(parts@).take(i as int)),
        decreases parts.len() - i,
    {
        out.append(parts[i].as_str());
        proof {
            let all = strings_view(parts@);
            assert(all.take(i + 1).drop_last() =~= all.take(i as int));
            assert(all.take(i + 1).last() == parts@[i as int]@);
            assert(out@ =~= start + concat_all(all.take(i + 1)));
        }
        i = i + 1;
    }
    assert(strings_view(parts@).take(parts@.len() as int) =~= strings_view(parts@));
}

/// Computes the content hash of a package from what it is made of.
pub fn compute_hash(
    build: &str,
    fetch: &Vec<FetchResource>,
    run_hashes: &Vec<String>,
    build_hashes: &Vec<String>,
) -> (hash: String)
    ensures
        hash@ == package_hash(
            build@,
            fetches_view(fetch@),
            strings_view(run_hashes@),
            strings_view(build_hashes@),
        ),
        hash@.len() == 64,
{
    let mut text = String::from_str("build:");
    text.append(build);
    text.append("\0fetch\0");
    let ghost head = text@;
    let mut i: usize = 0;
    assert(fetches_view(fetch@).take(0) =~= Seq::<FetchResourceView>::empty());
    assert(text@ =~= head + fetch_part(fetches_view(fetch@).take(0)));
    while i < fetch.len()
        invariant
            i <= fetch.len(),
            text@ == head + fetch_part(fetches_view(fetch@).take(i as int)),
        decreases fetch.len() - i,
    {
        text.append(fetch[i].filename.as_str());
        text.append("\0");
        text.append(fetch[i].sha256.as_str());
        text.append("\0");
        proof {
            let all = fetches_view(fetch@);
            assert(all.take(i + 1).drop_last() =~= all.take(i as int));
            assert(all.take(i + 1).last() == fetch@[i as int]@);
            assert(text@ =~= head + fetch_part(all.take(i + 1)));
        }
        i = i + 1;
    }
    assert(fetches_view(fetch@).take(fetch@.len() as int) =~= fetches_view(fetch@));
    text.append("\0run\0");
    append_all(&mut text, run_hashes);
    text.append("\0build\0");
    append_all(&mut text, build_hashes);
    assert(text@ =~= hash_preimage(
        build@,
        fetches_view(fetch@),
        strings_view(run_hashes@),
        strings_view(build_hashes@),
    ));
    sha256_hex(text.as_str().as_bytes())
}

/// The base name of a package: `<name>-<hash>`, or `pkg-<hash>` without a name.
pub fn package_base_name(package: &Package) -> (base: String)
    ensures
        base@ == base_name_spec(package@.name, package@.hash),
{
    match &package.name {
        Some(name) => {
            if !name.as_str().is_empty() {
                let mut base = name.clone();
                base.append("-");
                base.append(package.hash.as_str());
                base
            } else {
                concat2("pkg-", package.hash.as_str())
            }
        },
        None => concat2("pkg-", package.hash.as_str()),
    }
}

/// `s` with the items at `i` and `j` exchanged.
pub open spec fn swapped<A>(s: Seq<A>, i: int, j: int) -> Seq<A> {
    s.update(i, s[j]).update(j, s[i])
}

/// Every part has the same width.
pub open spec fn uniform_width(parts: Seq<Seq<char>>, width: nat) -> bool {
    forall|k: int| 0 <= k < parts.len() ==> (#[trigger] parts[k]).len() == width
}

/// In a concatenation of parts of one width, each part can be read back at its offset.
pub proof fn lemma_concat_all_blocks(parts: Seq<Seq<char>>, width: nat, i: int)
    requires
        uniform_width(parts, width),
        0 <= i < parts.len(),
    ensures
        concat_all(parts).len() == width * parts.len(),
        width * i + width <= concat_all(parts).len(),
        concat_all(parts).subrange(width * i, width * i + width) == parts[i],
    decreases parts.len(),
{
    let front = parts.drop_last();
    let n = parts.len() as int;
    assert(uniform_width(front, width)) by {
        assert forall|k: int| 0 <= k < front.len() implies (#[trigger] front[k]).len()
            == width by {
            assert(front[k] == parts[k]);
        }
    }
    assert(parts.last().len() == width);
    if front.len() == 0 {
        assert(concat_all(front) =~= Seq::<char>::empty());
        assert(concat_all(parts) =~= parts[0]);
        assert(width * 1 == width) by (nonlinear_arith);
        assert(width * 0 == 0) by (nonlinear_arith);
        assert(concat_all(parts).subrange(0, width as int) =~= parts[0]);
    } else {
        lemma_concat_all_blocks(front, width, 0);
        assert(concat_all(front).len() == width * (n - 1));
        assert(width * n == width * (n - 1) + width) by (nonlinear_arith);
        if i < n - 1 {
            lemma_concat_all_blocks(front, width, i);
            assert(front[i] == parts[i]);
            assert(concat_all(parts).subrange(width * i, width * i + width) =~= concat_all(
                front,
            ).subrange(width * i, width * i + width));
        } else {
            assert(width * i == width * (n - 1));
            assert(concat_all(parts).subrange(width * i, width * i + width) =~= parts.last());
        }
    }
}

/// Exchanging two different parts of one width changes the concatenation.
pub proof fn lemma_swap_changes_concat(parts: Seq<Seq<char>>, width: nat, i: int, j: int)
    requires
        uniform_width(parts, width),
        0 <= i < parts.len(),
        0 <= j < parts.len(),
        parts[i] != parts[j],
    ensures
        concat_all(swapped(parts, i, j)) != concat_all(parts),
        concat_all(swapped(parts, i, j)).len() == concat_all(parts).len(),
{
    let other = swapped(parts, i, j);
    assert(uniform_width(other, width));
    lemma_concat_all_blocks(parts, width, i);
    lemma_concat_all_blocks(other, width, i);
    assert(other[i] == parts[j]);
}

/// The package hash does not depend on the URLs of the fetch list: two
/// lists that agree on every file name and digest give the same canonical
/// text.
pub proof fn lemma_fetch_part_ignores_urls(a: Seq<FetchResourceView>, b: Seq<FetchResourceView>)
    requires
        a.len() == b.len(),
        forall|k: int|
            0 <= k < a.len() ==> a[k].filename == b[k].filename && a[k].sha256 == b[k].sha256,
    ensures
        fetch_part(a) == fetch_part(b),
    decreases a.len(),
{
    if a.len() > 0 {
        lemma_fetch_part_ignores_urls(a.drop_last(), b.drop_last());
    }
}

/// Changing any URL of a fetch, its digest and file name kept, leaves the
/// hash of the enclosing package as it was.
pub proof fn lemma_hash_ignores_urls(
    build: Seq<char>,
    fetch: Seq<FetchResourceView>,
    run_hashes: Seq<Seq<char>>,
    build_hashes: Seq<Seq<char>>,
    at: int,
    urls: Seq<Seq<char>>,
)
    requires
        0 <= at < fetch.len(),
    ensures
        package_hash(
            build,
            fetch.update(
                at,
                FetchResourceView { filename: fetch[at].filename, sha256: fetch[at].sha256, urls },
            ),
            run_hashes,
            build_hashes,
        ) == package_hash(build, fetch, run_hashes, build_hashes),
{
    let changed = fetch.update(
        at,
        FetchResourceView { filename: fetch[at].filename, sha256: fetch[at].sha256, urls },
    );
    lemma_fetch_part_ignores_urls(changed, fetch);
}

/// The hash and the base name are functions of what a package is made of:
/// two packages with the same script, the same file names and digests, and
/// the same dependency hashes in the same order have the same hash, and with
/// the same display name the same base name.
pub proof fn lemma_hash_deterministic(
    name: Option<Seq<char>>,
    build: Seq<char>,
    fetch_a: Seq<FetchResourceView>,
    fetch_b: Seq<FetchResourceView>,
    run_hashes: Seq<Seq<char>>,
    build_hashes: Seq<Seq<char>>,
)
    requires
        fetch_a.len() == fetch_b.len(),
        forall|k: int|
            0 <= k < fetch_a.len() ==> fetch_a[k].filename == fetch_b[k].filename
                && fetch_a[k].sha256 == fetch_b[k].sha256,
    ensures
        package_hash(build, fetch_a, run_hashes, build_hashes) == package_hash(
            build,
            fetch_b,
            run_hashes,
            build_hashes,
        ),
        base_name_spec(name, package_hash(build, fetch_a, run_hashes, build_hashes))
            == base_name_spec(name, package_hash(build, fetch_b, run_hashes, build_hashes)),
{
    lemma_fetch_part_ignores_urls(fetch_a, fetch_b);
}

/// Hashing is sensitive to the order of the run-time dependencies:
/// exchanging two of them with different hashes changes the canonical text
/// and its UTF-8 bytes, so the package hash changes unless SHA-256 maps the
/// two texts to one digest.
pub proof fn lemma_run_dep_order_matters(
    build: Seq<char>,
    fetch: Seq<FetchResourceView>,
    run_hashes: Seq<Seq<char>>,
    build_hashes: Seq<Seq<char>>,
    i: int,
    j: int,
)
    requires
        uniform_width(run_hashes, 64),
        0 <= i < run_hashes.len(),
        0 <= j < run_hashes.len(),
        run_hashes[i] != run_hashes[j],
    ensures
        ({
            let before = hash_preimage(build, fetch, run_hashes, build_hashes);
            let after = hash_preimage(build, fetch, swapped(run_hashes, i, j), build_hashes);
            &&& after != before
            &&& encode_utf8(after) != encode_utf8(before)
            &&& sha256(encode_utf8(after)) != sha256(encode_utf8(before)) ==> package_hash(
                build,
                fetch,
                swapped(run_hashes, i, j),
                build_hashes,
            ) != package_hash(build, fetch, run_hashes, build_hashes)
        }),
{
    let before = hash_preimage(build, fetch, run_hashes, build_hashes);
    let after = hash_preimage(build, fetch, swapped(run_hashes, i, j), build_hashes);
    let head = "build:"@ + build + "\0fetch\0"@ + fetch_part(fetch) + "\0run\0"@;
    let mid_before = concat_all(run_hashes);
    let mid_after = concat_all(swapped(run_hashes, i, j));
    lemma_swap_changes_concat(run_hashes, 64, i, j);
    assert(before.subrange(head.len() as int, (head.len() + mid_before.len()) as int) =~= mid_before);
    assert(after.subrange(head.len() as int, (head.len() + mid_after.len()) as int) =~= mid_after);
    lemma_text_determines_bytes(after, before);
    lemma_digest_determines_hash(encode_utf8(after), encode_utf8(before));
}

/// Hashing is sensitive to the order of the build-time dependencies:
/// exchanging two of them with different hashes changes the canonical text
/// and its UTF-8 bytes, so the package hash changes unless SHA-256 maps the
/// two texts to one digest.
pub proof fn lemma_build_dep_order_matters(
    build: Seq<char>,
    fetch: Seq<FetchResourceView>,
    run_hashes: Seq<Seq<char>>,
    build_hashes: Seq<Seq<char>>,
    i: int,
    j: int,
)
    requires
        uniform_width(build_hashes, 64),
        0 <= i < build_hashes.len(),
        0 <= j < build_hashes.len(),
        build_hashes[i] != build_hashes[j],
    ensures
        ({
            let before = hash_preimage(build, fetch, run_hashes, build_hashes);
            let after = hash_preimage(build, fetch, run_hashes, swapped(build_hashes, i, j));
            &&& after != before
            &&& encode_utf8(after) != encode_utf8(before)
            &&& sha256(encode_utf8(after)) != sha256(encode_utf8(before)) ==> package_hash(
                build,
                fetch,
                run_hashes,
                swapped(build_hashes, i, j),
            ) != package_hash(build, fetch, run_hashes, build_hashes)
        }),
{
    let before = hash_preimage(build, fetch, run_hashes, build_hashes);
    let after = hash_preimage(build, fetch, run_hashes, swapped(build_hashes, i, j));
    let head = "build:"@ + build + "\0fetch\0"@ + fetch_part(fetch) + "\0run\0"@ + concat_all(
        run_hashes,
    ) + "\0build\0"@;
    let tail_before = concat_all(build_hashes);
    let tail_after = concat_all(swapped(build_hashes, i, j));
    lemma_swap_changes_concat(build_hashes, 64, i, j);
    assert(before.subrange(head.len() as int, (head.len() + tail_before.len()) as int) =~= tail_before);
    assert(after.subrange(head.len() as int, (head.len() + tail_after.len()) as int) =~= tail_after);
    lemma_text_determines_bytes(after, before);
    lemma_digest_determines_hash(encode_utf8(after), encode_utf8(before));
}

/// Different texts have different UTF-8 encodings.
pub proof fn lemma_text_determines_bytes(a: Seq<char>, b: Seq<char>)
    requires
        a != b,
    ensures
        encode_utf8(a) != encode_utf8(b),
{
    vstd::utf8::encode_utf8_decode_utf8(a);
    vstd::utf8::encode_utf8_decode_utf8(b);
}

/// Different digests have different hexadecimal forms.
pub proof fn lemma_digest_determines_hash(a: Seq<u8>, b: Seq<u8>)
    ensures
        sha256(a) != sha256(b) ==> hex_spec(sha256(a)) != hex_spec(sha256(b)),
{
    if hex_spec(sha256(a)) == hex_spec(sha256(b)) {
        crate::digest::lemma_hex_injective(sha256(a), sha256(b));
    }
}

} // verus!
