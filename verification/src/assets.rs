//! The files of the user interface: the revision that their contents give, and file digests.
use crate::outside::{
    absorbed, hex_encode, hex_text, is_lower_hex, sha256, sha256_finalize, sha256_new, sha256_update,
};
use vstd::prelude::*;
use vstd::utf8::*;

verus! {

/// The contents of the files of the user interface; nothing for one that is missing.
#[derive(Debug)]
pub struct AssetFiles {
    pub index_html: Option<Vec<u8>>,
    pub index_js: Option<Vec<u8>>,
    pub index_css: Option<Vec<u8>>,
    pub favicon_ico: Option<Vec<u8>>,
}

/// The contents of the files of the user interface.
pub struct AssetsView {
    pub index_html: Option<Seq<u8>>,
    pub index_js: Option<Seq<u8>>,
    pub index_css: Option<Seq<u8>>,
    pub favicon_ico: Option<Seq<u8>>,
}

/// The contents of a file, where it is there.
pub open spec fn optional_bytes(content: Option<Vec<u8>>) -> Option<Seq<u8>> {
    match content {
        Some(bytes) => Some(bytes@),
        None => None,
    }
}

impl View for AssetFiles {
    type V = AssetsView;

    open spec fn view(&self) -> AssetsView {
        AssetsView {
            index_html: optional_bytes(self.index_html),
            index_js: optional_bytes(self.index_js),
            index_css: optional_bytes(self.index_css),
            favicon_ico: optional_bytes(self.favicon_ico),
        }
    }
}

/// A number in a given count of bytes, the most significant first.
pub open spec fn be_bytes(n: nat, count: nat) -> Seq<u8>
    decreases count,
{
    if count == 0 {
        Seq::empty()
    } else {
        be_bytes(n / 256, (count - 1) as nat).push((n % 256) as u8)
    }
}

/// How many numbers a given count of bytes can tell apart.
pub open spec fn byte_span(count: nat) -> nat
    decreases count,
{
    if count == 0 {
        1
    } else {
        256 * byte_span((count - 1) as nat)
    }
}

/// What a file contributes to the revision: its name, whether it is there, and its length and
/// contents if it is.
pub open spec fn file_frame(name: Seq<char>, content: Option<Seq<u8>>) -> Seq<u8> {
    match content {
        Some(bytes) => encode_utf8(name) + seq![1u8] + be_bytes(bytes.len(), 8) + bytes,
        None => encode_utf8(name) + seq![0u8],
    }
}

/// What the files contribute to the revision.
pub open spec fn framed(assets: AssetsView) -> Seq<u8> {
    file_frame("index.html"@, assets.index_html) + file_frame("index.js"@, assets.index_js)
        + file_frame("index.css"@, assets.index_css) + file_frame(
        "favicon.ico"@,
        assets.favicon_ico,
    )
}

/// The revision of the files: the first eight bytes of the digest of what they contribute.
pub open spec fn revision(assets: AssetsView) -> Seq<char> {
    hex_text(sha256(framed(assets)).take(8))
}

/// Bytes in hexadecimal have two lower-case digits for each.
proof fn lemma_hex_text(bytes: Seq<u8>)
    ensures
        hex_text(bytes).len() == 2 * bytes.len(),
        forall|i: int| 0 <= i < hex_text(bytes).len() ==> is_lower_hex(#[trigger] hex_text(bytes)[i]),
{
    assert forall|i: int| 0 <= i < hex_text(bytes).len() implies is_lower_hex(
        #[trigger] hex_text(bytes)[i],
    ) by {
        let b = bytes[i / 2] as int;
        assert(0 <= b / 16 < 16);
        assert(0 <= b % 16 < 16);
    }
}

/// The first eight bytes of a digest, in hexadecimal.
pub fn revision_text(digest: &Vec<u8>) -> (r: String)
    requires
        digest@.len() >= 8,
    ensures
        r@ == hex_text(digest@.take(8)),
        r@.len() == 16,
        forall|i: int| 0 <= i < 16 ==> is_lower_hex(#[trigger] r@[i]),
{
    let mut head: Vec<u8> = Vec::new();
    let mut i: usize = 0;
    while i < 8
        invariant
            i <= 8,
            digest@.len() >= 8,
            head@ == digest@.take(i as int),
        decreases 8 - i,
    {
        head.push(digest[i]);
        i = i + 1;
        assert(head@ =~= digest@.take(i as int));
    }
    proof {
        lemma_hex_text(head@);
    }
    hex_encode(head.as_slice())
}

/// Appends a number in a given count of bytes, the most significant first.
fn push_be(out: &mut Vec<u8>, n: u64, count: u32)
    ensures
        final(out)@ == old(out)@ + be_bytes(n as nat, count as nat),
    decreases count,
{
    if count > 0 {
        push_be(out, n / 256, count - 1);
        let ghost front = out@;
        out.push((n % 256) as u8);
        assert(out@ =~= old(out)@ + be_bytes(n as nat, count as nat));
    } else {
        assert(out@ =~= old(out)@ + be_bytes(n as nat, count as nat));
    }
}

/// Feeds what a file contributes to a digest.
fn feed_file(hasher: &mut sha2::Sha256, name: &str, content: &Option<Vec<u8>>)
    ensures
        absorbed(*final(hasher)) == absorbed(*old(hasher)) + file_frame(
            name@,
            optional_bytes(*content),
        ),
{
    let ghost before = absorbed(*hasher);
    sha256_update(hasher, name.as_bytes());
    match content {
        Some(bytes) => {
            let mut head: Vec<u8> = Vec::new();
            head.push(1u8);
            let ghost marked = head@;
            push_be(&mut head, bytes.len() as u64, 8);
            assert(marked =~= seq![1u8]);
            sha256_update(hasher, head.as_slice());
            sha256_update(hasher, bytes.as_slice());
            assert(absorbed(*hasher) =~= before + file_frame(name@, optional_bytes(*content)));
        },
        None => {
            let mut head: Vec<u8> = Vec::new();
            head.push(0u8);
            sha256_update(hasher, head.as_slice());
            assert(absorbed(*hasher) =~= before + file_frame(name@, optional_bytes(*content)));
        },
    }
}

/// The revision of the files of the user interface, which changes when one of them does.
pub fn assets_revision(assets: &AssetFiles) -> (r: String)
    ensures
        r@ == revision(assets@),
        r@.len() == 16,
        forall|i: int| 0 <= i < 16 ==> is_lower_hex(#[trigger] r@[i]),
{
    let mut hasher = sha256_new();
    feed_file(&mut hasher, "index.html", &assets.index_html);
    feed_file(&mut hasher, "index.js", &assets.index_js);
    feed_file(&mut hasher, "index.css", &assets.index_css);
    feed_file(&mut hasher, "favicon.ico", &assets.favicon_ico);
    assert(absorbed(hasher) =~= framed(assets@));
    let digest = sha256_finalize(hasher);
    revision_text(&digest)
}

/// The digest of a file that is read piece by piece.
pub struct FileDigest {
    hasher: sha2::Sha256,
}

impl View for FileDigest {
    type V = Seq<u8>;

    closed spec fn view(&self) -> Seq<u8> {
        absorbed(self.hasher)
    }
}

impl FileDigest {
    /// The digest of a file of which nothing has been read.
    pub fn new() -> (r: FileDigest)
        ensures
            r@ == Seq::<u8>::empty(),
    {
        FileDigest { hasher: sha256_new() }
    }

    /// Takes in the next piece of the file.
    pub fn update(&mut self, piece: &[u8])
        ensures
            final(self)@ == old(self)@ + piece@,
    {
        sha256_update(&mut self.hasher, piece);
    }

    /// The digest of all that has been read, in hexadecimal.
    pub fn finish(self) -> (r: String)
        ensures
            r@ == hex_text(sha256(self@)),
            r@.len() == 64,
            forall|i: int| 0 <= i < 64 ==> is_lower_hex(#[trigger] r@[i]),
    {
        let digest = sha256_finalize(self.hasher);
        proof {
            lemma_hex_text(digest@);
        }
        hex_encode(digest.as_slice())
    }
}

/// Numbers that fit in a count of bytes and have the same bytes are equal.
proof fn lemma_be_bytes(n: nat, m: nat, count: nat)
    requires
        n < byte_span(count),
        m < byte_span(count),
        be_bytes(n, count) == be_bytes(m, count),
    ensures
        n == m,
    decreases count,
{
    if count > 0 {
        let a = be_bytes(n / 256, (count - 1) as nat);
        let b = be_bytes(m / 256, (count - 1) as nat);
        assert(a.push((n % 256) as u8).drop_last() =~= a);
        assert(b.push((m % 256) as u8).drop_last() =~= b);
        assert(a.push((n % 256) as u8).last() == (n % 256) as u8);
        assert(b.push((m % 256) as u8).last() == (m % 256) as u8);
        lemma_be_bytes(n / 256, m / 256, (count - 1) as nat);
    }
}

/// A number has as many bytes as asked for.
proof fn lemma_be_length(n: nat, count: nat)
    ensures
        be_bytes(n, count).len() == count,
    decreases count,
{
    if count > 0 {
        lemma_be_length(n / 256, (count - 1) as nat);
    }
}

/// Whether contents, where they are there, are no longer than a length field can say.
pub open spec fn fits_frame(content: Option<Seq<u8>>) -> bool {
    content is Some ==> content->0.len() <= u64::MAX
}

/// What a file contributes can be told from what follows it.
proof fn lemma_frame(
    name: Seq<char>,
    a: Option<Seq<u8>>,
    b: Option<Seq<u8>>,
    after_a: Seq<u8>,
    after_b: Seq<u8>,
)
    requires
        fits_frame(a),
        fits_frame(b),
        file_frame(name, a) + after_a == file_frame(name, b) + after_b,
    ensures
        a == b,
        after_a == after_b,
{
    let n = encode_utf8(name).len() as int;
    let left = file_frame(name, a) + after_a;
    let right = file_frame(name, b) + after_b;
    assert(left[n] == right[n]);
    assert(left[n] == if a is Some { 1u8 } else { 0u8 });
    assert(right[n] == if b is Some { 1u8 } else { 0u8 });
    if a is Some {
        let x = a->0;
        let y = b->0;
        lemma_be_length(x.len(), 8);
        lemma_be_length(y.len(), 8);
        assert(left.subrange(n + 1, n + 9) =~= be_bytes(x.len(), 8));
        assert(right.subrange(n + 1, n + 9) =~= be_bytes(y.len(), 8));
        reveal_with_fuel(byte_span, 9);
        lemma_be_bytes(x.len(), y.len(), 8);
        let len = x.len() as int;
        assert(left.subrange(n + 9, n + 9 + len) =~= x);
        assert(right.subrange(n + 9, n + 9 + len) =~= y);
        assert(left.skip(n + 9 + len) =~= after_a);
        assert(right.skip(n + 9 + len) =~= after_b);
    } else {
        assert(left.skip(n + 1) =~= after_a);
        assert(right.skip(n + 1) =~= after_b);
    }
}

/// Four pieces one after the other, taken from the left or from the right.
proof fn lemma_regrouped(a: Seq<u8>, b: Seq<u8>, c: Seq<u8>, d: Seq<u8>)
    ensures
        a + b + c + d == a + (b + (c + d)),
{
    assert(a + b + c + d =~= a + (b + (c + d)));
}

/// Two sets of files that contribute the same to the revision are the same: the revision changes
/// with every content, as far as its digest tells contributions apart.
pub proof fn law_revision_covers_contents(a: AssetsView, b: AssetsView)
    requires
        fits_frame(a.index_html),
        fits_frame(a.index_js),
        fits_frame(a.index_css),
        fits_frame(a.favicon_ico),
        fits_frame(b.index_html),
        fits_frame(b.index_js),
        fits_frame(b.index_css),
        fits_frame(b.favicon_ico),
        framed(a) == framed(b),
    ensures
        a == b,
{
    let a4 = file_frame("favicon.ico"@, a.favicon_ico);
    let b4 = file_frame("favicon.ico"@, b.favicon_ico);
    let a3 = file_frame("index.css"@, a.index_css) + a4;
    let b3 = file_frame("index.css"@, b.index_css) + b4;
    let a2 = file_frame("index.js"@, a.index_js) + a3;
    let b2 = file_frame("index.js"@, b.index_js) + b3;
    lemma_regrouped(
        file_frame("index.html"@, a.index_html),
        file_frame("index.js"@, a.index_js),
        file_frame("index.css"@, a.index_css),
        a4,
    );
    lemma_regrouped(
        file_frame("index.html"@, b.index_html),
        file_frame("index.js"@, b.index_js),
        file_frame("index.css"@, b.index_css),
        b4,
    );
    lemma_frame("index.html"@, a.index_html, b.index_html, a2, b2);
    lemma_frame("index.js"@, a.index_js, b.index_js, a3, b3);
    lemma_frame("index.css"@, a.index_css, b.index_css, a4, b4);
    assert(a4 + Seq::<u8>::empty() =~= a4);
    assert(b4 + Seq::<u8>::empty() =~= b4);
    lemma_frame(
        "favicon.ico"@,
        a.favicon_ico,
        b.favicon_ico,
        Seq::<u8>::empty(),
        Seq::<u8>::empty(),
    );
}

} // verus!
