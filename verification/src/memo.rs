//! The memo cache: an in-memory mirror of one backing text file, with a
//! cached digest for staleness detection.
//!
//! A memo keeps the file's path, a cached content buffer, and the digest
//! of the content the buffer was last validated against. Validation is
//! hash-based: a freshness check compares the cached digest with the
//! digest of the file's current content, and a refresh replaces the
//! buffer and digest only when that check fails. Reading the file itself
//! is the caller's business; every operation here takes the content the
//! caller read as a plain value, so the cache logic holds for whatever
//! the reads returned. The check and the re-read are separate reads by
//! design: no atomic snapshot ties them together, and a file mutated
//! between them yields the later read's content, as documented
//! best-effort behavior.

use vstd::prelude::*;
use vstd::string::StringExecFns;

verus! {

/// The model of a memo: its path, cached buffer, and cached digest.
#[verifier::ext_equal]
pub ghost struct MemoModel {
    pub path: Seq<char>,
    pub buffer: Seq<char>,
    pub digest: u64,
}

pub uninterp spec fn content_digest(s: Seq<char>) -> u64;

/// Relies on std's DefaultHasher, str's Hash impl and Hasher::finish:
/// DefaultHasher::new is documented to build the same initial state in
/// every instance, so the digest of a string depends on its text alone.
#[verifier::external_body]
fn digest_of(s: &str) -> (r: u64)
    ensures
        r == content_digest(s@),
{
    let mut hasher = std::hash::DefaultHasher::new();
    std::hash::Hash::hash(s, &mut hasher);
    std::hash::Hasher::finish(&hasher)
}

/// What a refresh leaves behind: the memo unchanged when the freshness
/// check passes, else the latest content with its digest.
pub open spec fn refreshed(m: MemoModel, check: Seq<char>, latest: Seq<char>) -> MemoModel {
    if content_digest(check) == m.digest {
        m
    } else {
        MemoModel { path: m.path, buffer: latest, digest: content_digest(latest) }
    }
}

/// A validated memo: the cached digest is the digest of the cached
/// buffer.
pub open spec fn validated(m: MemoModel) -> bool {
    m.digest == content_digest(m.buffer)
}

/// The model of a memo freshly loaded from a file holding `content`.
pub open spec fn loaded(path: Seq<char>, content: Seq<char>) -> MemoModel {
    refreshed(
        MemoModel {
            path: path,
            buffer: Seq::empty(),
            digest: content_digest(Seq::<char>::empty()),
        },
        content,
        content,
    )
}

/// One backing text file mirrored in memory.
pub struct Memo {
    original_path: String,
    content_buffer: String,
    content_hash: u64,
}

impl View for Memo {
    type V = MemoModel;

    closed spec fn view(&self) -> MemoModel {
        MemoModel {
            path: self.original_path@,
            buffer: self.content_buffer@,
            digest: self.content_hash,
        }
    }
}

impl Memo {
    /// A memo for a brand-new file: an empty cached buffer, and a cached
    /// digest equal to the digest of empty content, so that a first
    /// refresh against a genuinely empty file passes the freshness check.
    pub fn new(original_path: String) -> (m: Memo)
        ensures
            m@.path == original_path@,
            m@.buffer == Seq::<char>::empty(),
            m@.digest == content_digest(Seq::<char>::empty()),
            validated(m@),
    {
        let h = digest_of("");
        proof {
            reveal_strlit("");
            assert(""@ =~= Seq::<char>::empty());
        }
        Memo { original_path, content_buffer: String::new(), content_hash: h }
    }

    /// A memo for an existing file, validated at once against the
    /// content the caller just read from it.
    pub fn with_content(original_path: String, latest: &str) -> (m: Memo)
        ensures
            m@ == loaded(original_path@, latest@),
            m@.path == original_path@,
            m@.digest == content_digest(latest@),
            validated(m@),
    {
        let mut memo = Memo::new(original_path);
        memo.refresh(latest, latest);
        memo
    }

    /// The digest of the file content the caller just read.
    pub fn create_latest_hash(&self, latest: &str) -> (r: u64)
        ensures
            r == content_digest(latest@),
    {
        digest_of(latest)
    }

    /// The freshness check: whether the cached digest equals the digest
    /// of the file's current content. A pure check: nothing cached is
    /// mutated.
    pub fn eq_origin(&self, latest: &str) -> (r: bool)
        ensures
            r == (self@.digest == content_digest(latest@)),
    {
        self.content_hash == self.create_latest_hash(latest)
    }

    /// Re-validates the memo: when the freshness check against `check`
    /// fails, the buffer becomes `latest` (the re-read content) and the
    /// digest is recomputed from it; otherwise nothing changes.
    pub fn refresh(&mut self, check: &str, latest: &str)
        ensures
            final(self)@ == refreshed(old(self)@, check@, latest@),
            content_digest(check@) != old(self)@.digest ==> validated(final(self)@),
    {
        if !self.eq_origin(check) {
            self.content_buffer = String::from_str(latest);
            self.content_hash = self.create_latest_hash(latest);
            proof {
                assert(self@ =~= refreshed(old(self)@, check@, latest@));
            }
        }
    }

    /// The path of the backing file.
    pub fn path(&self) -> (r: &String)
        ensures
            r@ == self@.path,
    {
        &self.original_path
    }

    /// The cached content buffer.
    pub fn buffer(&self) -> (r: &String)
        ensures
            r@ == self@.buffer,
    {
        &self.content_buffer
    }

    /// The cached digest.
    pub fn content_hash(&self) -> (r: u64)
        ensures
            r == self@.digest,
    {
        self.content_hash
    }
}

/// The file name a memo of the given name is stored under.
pub fn memo_file_name(name: &str) -> (r: String)
    ensures
        r@ == name@ + ".md"@,
{
    let mut s = name.to_owned();
    s.append(".md");
    s
}

/// The freshness check is stable: while the file's content stays what
/// the cached digest was computed from, a refresh changes nothing, on
/// every call.
pub proof fn lemma_fresh_check_stable(m: MemoModel, c: Seq<char>)
    requires
        m.digest == content_digest(c),
    ensures
        refreshed(m, c, c) == m,
{
}

/// A refresh is idempotent: a second refresh with no intervening file
/// change leaves the buffer and digest exactly as the first left them.
pub proof fn lemma_refresh_idempotent(m: MemoModel, c: Seq<char>)
    ensures
        refreshed(refreshed(m, c, c), c, c) == refreshed(m, c, c),
{
}

} // verus!
