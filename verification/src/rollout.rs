//! Release identities, release metadata validation, and the successor
//! selection state machine of the optional live-handoff runtime.

use vstd::prelude::*;
use std::collections::BTreeSet;
use sha2::Digest;
use crate::text::{chars_of, char_from_ascii, is_ascii_digit, is_ascii_hexdigit, owned, string_from_chars, to_ascii_lowercase};

verus! {

/// Schema number of release pointers and manifests.
pub const RELEASE_SCHEMA: u32 = 1;

/// Broad category of a release refusal.
#[derive(Debug, Clone, Copy, PartialEq, Eq, Structural)]
pub enum ReleaseErrorKind {
    /// The release metadata or its environment is malformed.
    InvalidData,
    /// The caller supplied an unusable argument.
    InvalidInput,
    /// A release artifact is not confined or not owned as required.
    PermissionDenied,
}

/// Why a release identity, release metadata, or a handoff request was refused.
#[derive(Debug, Clone, PartialEq, Eq)]
pub enum ReleaseError {
    /// A release identity is not 64 lowercase hexadecimal digits.
    InvalidReleaseId,
    /// A digest does not have the SHA-256 width.
    InvalidDigestWidth,
    /// A versioned state contract cannot read the epoch it writes.
    UnreadableWriteEpoch,
    /// The provenance repository path is relative.
    RepositoryNotAbsolute,
    /// The provenance commit is not a full Git object id.
    InvalidCommit,
    /// The provenance toolchain or build timestamp is empty.
    EmptyBuildField,
    /// A manifest carries an unknown schema number.
    UnsupportedManifestSchema(u32),
    /// A pointer carries an unknown schema number.
    UnsupportedPointerSchema(u32),
    /// The server name is not 1-64 portable filename characters.
    InvalidServerName,
    /// The release executable path is relative.
    ExecutableNotAbsolute,
    /// A release argument contains a NUL character.
    ArgumentContainsNul,
    /// The manifest path of a pointer is relative.
    ManifestNotAbsolute,
    /// The release channel path is relative.
    ChannelNotAbsolute,
    /// Only one of the managed channel and generation is set.
    IncompleteManagedEnvironment,
    /// The loaded release names another server.
    ServerMismatch,
    /// The release directory is not named after its generation.
    DirectoryGenerationMismatch,
    /// The executable does not hash to the recorded digest.
    DigestMismatch,
    /// A successor's executable was not hashed before selection.
    SuccessorUnverified,
    /// A snapshot environment variable name is not uppercase ASCII, digits, and underscores.
    InvalidEnvironmentName,
    /// A handoff was requested with a zero timeout.
    ZeroHandoffTimeout,
    /// An armed successor has only one of a channel and a generation.
    IncompleteSuccessorTarget,
    /// A release file is not a private regular file owned by the user.
    FileNotPrivate,
    /// A release executable is not a private, owner-executable regular file.
    ExecutableNotPrivate,
    /// A release metadata file is larger than its bound.
    MetadataTooLarge(u64),
    /// A handoff gate byte differs from the expected protocol byte.
    UnexpectedGateByte(u8),
    /// Standalone execution needs the current executable, which was not supplied.
    CurrentExecutableUnknown,
}

impl ReleaseError {
    /// The category of this refusal.
    pub fn kind(&self) -> (r: ReleaseErrorKind)
        ensures
            r == release_error_kind(*self),
    {
        match self {
            ReleaseError::RepositoryNotAbsolute => ReleaseErrorKind::InvalidData,
            ReleaseError::InvalidEnvironmentName | ReleaseError::ZeroHandoffTimeout => {
                ReleaseErrorKind::InvalidInput
            },
            ReleaseError::FileNotPrivate | ReleaseError::ExecutableNotPrivate => {
                ReleaseErrorKind::PermissionDenied
            },
            _ => ReleaseErrorKind::InvalidData,
        }
    }
}

/// The category of each refusal.
pub open spec fn release_error_kind(e: ReleaseError) -> ReleaseErrorKind {
    match e {
        ReleaseError::InvalidEnvironmentName | ReleaseError::ZeroHandoffTimeout => {
            ReleaseErrorKind::InvalidInput
        },
        ReleaseError::FileNotPrivate | ReleaseError::ExecutableNotPrivate => {
            ReleaseErrorKind::PermissionDenied
        },
        _ => ReleaseErrorKind::InvalidData,
    }
}

/// Whether a character is a lowercase hexadecimal digit.
pub open spec fn is_lower_hex_char(c: char) -> bool {
    is_ascii_digit(c) || ('a' <= c <= 'f')
}

/// Whether a text is one lowercase hexadecimal SHA-256 digest.
pub open spec fn is_release_id(s: Seq<char>) -> bool {
    s.len() == 64 && forall|i: int| 0 <= i < s.len() ==> is_lower_hex_char(#[trigger] s[i])
}

/// The lowercase hexadecimal digit for a nibble.
pub open spec fn hex_digit(n: int) -> char {
    if n < 10 {
        (48 + n) as char
    } else {
        (87 + n) as char
    }
}

/// The lowercase hexadecimal rendering of bytes, two digits per byte, high nibble first.
pub open spec fn lower_hex(bytes: Seq<u8>) -> Seq<char>
    decreases bytes.len(),
{
    if bytes.len() == 0 {
        Seq::empty()
    } else {
        lower_hex(bytes.drop_last()) + seq![
            hex_digit(bytes.last() as int / 16),
            hex_digit(bytes.last() as int % 16),
        ]
    }
}

/// The SHA-256 digest of a byte sequence, as computed by the `sha2` crate.
pub uninterp spec fn sha256_digest(bytes: Seq<u8>) -> Seq<u8>;

/// `sha2::Sha256::digest`: the 32-byte SHA-256 digest of `bytes`.
#[verifier::external_body]
fn sha256(bytes: &[u8]) -> (r: Vec<u8>)
    ensures
        r@ == sha256_digest(bytes@),
        r@.len() == 32,
{
    sha2::Sha256::digest(bytes).to_vec()
}

/// Rendering bytes in hexadecimal doubles their length and yields only lowercase hex digits.
pub proof fn lemma_lower_hex_shape(bytes: Seq<u8>)
    ensures
        lower_hex(bytes).len() == 2 * bytes.len(),
        forall|i: int| 0 <= i < lower_hex(bytes).len() ==> is_lower_hex_char(#[trigger] lower_hex(bytes)[i]),
    decreases bytes.len(),
{
    if bytes.len() > 0 {
        lemma_lower_hex_shape(bytes.drop_last());
        let prefix = lower_hex(bytes.drop_last());
        let b = bytes.last();
        let tail = seq![hex_digit(b as int / 16), hex_digit(b as int % 16)];
        assert(lower_hex(bytes) == prefix + tail);
        assert forall|i: int| 0 <= i < lower_hex(bytes).len() implies is_lower_hex_char(
            #[trigger] lower_hex(bytes)[i],
        ) by {
            if i < prefix.len() {
                assert(lower_hex(bytes)[i] == prefix[i]);
            } else {
                assert(lower_hex(bytes)[i] == tail[i - prefix.len()]);
            }
        }
    }
}

/// The hexadecimal digit of a nibble.
fn nibble_char(n: u8) -> (c: char)
    requires
        n < 16,
    ensures
        c == hex_digit(n as int),
{
    if n < 10 {
        char_from_ascii(48 + n as u32)
    } else {
        char_from_ascii(87 + n as u32)
    }
}

/// SHA-256 identity of one immutable release or one recorded build input.
#[derive(Debug, PartialEq, Eq, Hash, PartialOrd, Ord)]
pub struct ReleaseId {
    digest: String,
}

impl View for ReleaseId {
    type V = Seq<char>;

    closed spec fn view(&self) -> Seq<char> {
        self.digest@
    }
}

impl ReleaseId {
    #[verifier::type_invariant]
    spec fn is_digest_text(self) -> bool {
        is_release_id(self.digest@)
    }

    /// Refines one lowercase hexadecimal SHA-256 digest.
    pub fn try_new(value: &str) -> (r: Result<Self, ReleaseError>)
        ensures
            r is Ok <==> is_release_id(value@),
            r matches Ok(id) ==> id@ == value@,
            r matches Err(e) ==> e == ReleaseError::InvalidReleaseId,
    {
        let cs = chars_of(value);
        if cs.len() != 64 {
            return Err(ReleaseError::InvalidReleaseId);
        }
        let mut i: usize = 0;
        while i < cs.len()
            invariant
                i <= cs.len() == 64,
                cs@ == value@,
                forall|k: int| 0 <= k < i ==> is_lower_hex_char(#[trigger] cs@[k]),
            decreases cs.len() - i,
        {
            let c = cs[i];
            if !(('0' <= c && c <= '9') || ('a' <= c && c <= 'f')) {
                return Err(ReleaseError::InvalidReleaseId);
            }
            i += 1;
        }
        Ok(Self { digest: owned(value) })
    }

    /// Returns the digest text.
    pub fn as_str(&self) -> (r: &str)
        ensures
            r@ == self@,
            is_release_id(r@),
    {
        proof {
            use_type_invariant(self);
        }
        self.digest.as_str()
    }

    /// A copy of the same identity.
    pub fn duplicate(&self) -> (r: Self)
        ensures
            r@ == self@,
    {
        proof {
            use_type_invariant(self);
        }
        Self { digest: self.digest.clone() }
    }

    /// Whether two identities are the same digest.
    pub fn same_as(&self, other: &Self) -> (r: bool)
        ensures
            r == (self@ == other@),
    {
        crate::text::str_eq(self.digest.as_str(), other.digest.as_str())
    }

    /// Hashes canonical bytes into an immutable identity.
    pub fn digest_bytes(bytes: &[u8]) -> (r: Result<Self, ReleaseError>)
        ensures
            r matches Ok(id) && id@ == lower_hex(sha256_digest(bytes@)),
    {
        let digest = sha256(bytes);
        release_id_from_digest(digest.as_slice())
    }
}

impl Clone for ReleaseId {
    fn clone(&self) -> (r: Self)
        ensures
            r@ == self@,
    {
        self.duplicate()
    }
}

/// Renders a SHA-256 digest as a release identity.
pub fn release_id_from_digest(digest: &[u8]) -> (r: Result<ReleaseId, ReleaseError>)
    ensures
        r is Ok <==> digest@.len() == 32,
        r matches Ok(id) ==> id@ == lower_hex(digest@),
        r matches Err(e) ==> e == ReleaseError::InvalidDigestWidth,
{
    if digest.len() != 32 {
        return Err(ReleaseError::InvalidDigestWidth);
    }
    let mut text: Vec<char> = Vec::new();
    let mut i: usize = 0;
    while i < digest.len()
        invariant
            i <= digest.len() == 32,
            text@ == lower_hex(digest@.take(i as int)),
        decreases digest.len() - i,
    {
        let byte = digest[i];
        let high = nibble_char(byte / 16);
        let low = nibble_char(byte % 16);
        text.push(high);
        text.push(low);
        proof {
            let next = digest@.take(i + 1);
            assert(next.drop_last() =~= digest@.take(i as int));
            assert(next.last() == byte);
        }
        i += 1;
    }
    proof {
        assert(digest@.take(32) =~= digest@);
        lemma_lower_hex_shape(digest@);
    }
    Ok(ReleaseId { digest: string_from_chars(text.as_slice()) })
}

/// State-format envelope used to adjudicate promotion and rollback.
#[derive(Debug, Clone, PartialEq, Eq)]
pub enum StateCompatibility {
    /// The server owns no state whose representation constrains a release.
    Stateless,
    /// The server reads explicit epochs and writes exactly one epoch.
    Versioned {
        /// State epochs accepted by this release.
        readable: BTreeSet<u64>,
        /// State epoch emitted by this release.
        writable: u64,
    },
}

/// Whether a release with contract `candidate` can follow one with contract `incumbent`
/// without a destructive migration: both stateless, or the candidate reads the epoch the
/// incumbent writes.
pub open spec fn state_accepts(candidate: StateCompatibility, incumbent: StateCompatibility) -> bool {
    match (candidate, incumbent) {
        (StateCompatibility::Stateless, StateCompatibility::Stateless) => true,
        (
            StateCompatibility::Versioned { readable, .. },
            StateCompatibility::Versioned { writable, .. },
        ) => readable@.contains(writable),
        _ => false,
    }
}

/// State epochs are totally ordered as the sets of epochs require.
proof fn lemma_epochs_are_ordered()
    ensures
        vstd::laws_cmp::obeys_cmp::<u64>(),
{
    broadcast use vstd::laws_cmp::group_laws_cmp;
}

impl StateCompatibility {
    /// Constructs a versioned contract that can read its own writes.
    pub fn versioned(readable: &[u64], writable: u64) -> (r: Result<Self, ReleaseError>)
        ensures
            r is Ok <==> readable@.contains(writable),
            r matches Ok(s) ==> (s matches StateCompatibility::Versioned { readable: set, writable: w }
                && set@ == readable@.to_set() && w == writable),
            r matches Err(e) ==> e == ReleaseError::UnreadableWriteEpoch,
    {
        broadcast use vstd::std_specs::btree::group_btree_axioms;
        proof {
            lemma_epochs_are_ordered();
        }
        let mut set: BTreeSet<u64> = BTreeSet::new();
        let mut i: usize = 0;
        while i < readable.len()
            invariant
                i <= readable.len(),
                set@ == readable@.take(i as int).to_set(),
            decreases readable.len() - i,
        {
            let epoch = readable[i];
            let _fresh = set.insert(epoch);
            proof {
                assert(readable@.take(i + 1) =~= readable@.take(i as int).push(epoch));
                readable@.take(i as int).lemma_push_to_set_commute(epoch);
            }
            i += 1;
        }
        proof {
            assert(readable@.take(readable@.len() as int) =~= readable@);
        }
        if !set.contains(&writable) {
            return Err(ReleaseError::UnreadableWriteEpoch);
        }
        Ok(StateCompatibility::Versioned { readable: set, writable })
    }

    /// Returns whether this release can follow `incumbent` without a destructive migration.
    pub fn accepts(&self, incumbent: &Self) -> (r: bool)
        ensures
            r == state_accepts(*self, *incumbent),
    {
        broadcast use vstd::std_specs::btree::group_btree_axioms;
        proof {
            lemma_epochs_are_ordered();
        }
        match (self, incumbent) {
            (StateCompatibility::Stateless, StateCompatibility::Stateless) => true,
            (
                StateCompatibility::Versioned { readable, .. },
                StateCompatibility::Versioned { writable, .. },
            ) => readable.contains(writable),
            _ => false,
        }
    }
}


/// Whether a path is absolute: on Unix, it begins at the root.
pub open spec fn is_absolute_path(p: Seq<char>) -> bool {
    p.len() > 0 && p[0] == '/'
}

/// Whether a path text is absolute.
pub fn path_is_absolute(path: &str) -> (r: bool)
    ensures
        r == is_absolute_path(path@),
{
    let cs = chars_of(path);
    cs.len() > 0 && cs[0] == '/'
}

/// Whether a character may appear in a release server name.
pub open spec fn is_server_name_char(c: char) -> bool {
    is_ascii_digit(c) || ('a' <= c <= 'z') || ('A' <= c <= 'Z') || c == '-' || c == '_' || c == '.'
}

/// Whether a server name is 1-64 portable filename characters.
pub open spec fn is_server_name(s: Seq<char>) -> bool {
    1 <= s.len() <= 64 && forall|i: int| 0 <= i < s.len() ==> is_server_name_char(#[trigger] s[i])
}

/// Refuses server names that are not 1-64 portable filename characters.
pub fn validate_server_name(server: &str) -> (r: Result<(), ReleaseError>)
    ensures
        r is Ok <==> is_server_name(server@),
        r matches Err(e) ==> e == ReleaseError::InvalidServerName,
{
    let cs = chars_of(server);
    if cs.len() == 0 || cs.len() > 64 {
        return Err(ReleaseError::InvalidServerName);
    }
    let mut i: usize = 0;
    while i < cs.len()
        invariant
            i <= cs.len() <= 64,
            cs@ == server@,
            forall|k: int| 0 <= k < i ==> is_server_name_char(#[trigger] cs@[k]),
        decreases cs.len() - i,
    {
        let c = cs[i];
        let portable = ('0' <= c && c <= '9') || ('a' <= c && c <= 'z') || ('A' <= c && c <= 'Z')
            || c == '-' || c == '_' || c == '.';
        if !portable {
            return Err(ReleaseError::InvalidServerName);
        }
        i += 1;
    }
    Ok(())
}

/// Whether a character may appear in a snapshot environment variable name.
pub open spec fn is_env_name_char(c: char) -> bool {
    ('A' <= c <= 'Z') || is_ascii_digit(c) || c == '_'
}

/// Whether a name is a non-empty run of uppercase ASCII, digits, and underscores.
pub open spec fn is_env_name(s: Seq<char>) -> bool {
    s.len() > 0 && forall|i: int| 0 <= i < s.len() ==> is_env_name_char(#[trigger] s[i])
}

/// Refuses snapshot environment names other than uppercase ASCII, digits, and underscores.
pub fn validate_env_name(name: &str) -> (r: Result<(), ReleaseError>)
    ensures
        r is Ok <==> is_env_name(name@),
        r matches Err(e) ==> e == ReleaseError::InvalidEnvironmentName,
{
    let cs = chars_of(name);
    if cs.len() == 0 {
        return Err(ReleaseError::InvalidEnvironmentName);
    }
    let mut i: usize = 0;
    while i < cs.len()
        invariant
            i <= cs.len(),
            cs@ == name@,
            forall|k: int| 0 <= k < i ==> is_env_name_char(#[trigger] cs@[k]),
        decreases cs.len() - i,
    {
        let c = cs[i];
        if !(('A' <= c && c <= 'Z') || ('0' <= c && c <= '9') || c == '_') {
            return Err(ReleaseError::InvalidEnvironmentName);
        }
        i += 1;
    }
    Ok(())
}

/// The path component that marks a Cargo build artifact.
pub open spec fn target_component() -> Seq<char> {
    seq!['t', 'a', 'r', 'g', 'e', 't']
}

/// Whether `p[i..j]` is a whole path component: bounded by the ends or by `/`.
pub open spec fn is_component_at(p: Seq<char>, i: int, j: int) -> bool {
    &&& 0 <= i <= j <= p.len()
    &&& (i == 0 || p[i - 1] == '/')
    &&& (j == p.len() || p[j] == '/')
}

/// Whether some whole component of a path is `target`.
pub open spec fn has_target_component(p: Seq<char>) -> bool {
    exists|i: int, j: int| is_component_at(p, i, j) && #[trigger] p.subrange(i, j) == target_component()
}

/// A boundary segment that is not `target` closes no `target` component.
proof fn lemma_segment_not_target(p: Seq<char>, start: int, pos: int)
    requires
        0 <= start <= pos <= p.len(),
        start == 0 || p[start - 1] == '/',
        forall|k: int| start <= k < pos ==> p[k] != '/',
        p.subrange(start, pos) != target_component(),
    ensures
        forall|i: int| is_component_at(p, i, pos) ==> #[trigger] p.subrange(i, pos) != target_component(),
{
    assert forall|i: int| is_component_at(p, i, pos) implies #[trigger] p.subrange(i, pos)
        != target_component() by {
        if p.subrange(i, pos) == target_component() {
            let t = target_component();
            assert(t[0] == 't' && t[1] == 'a' && t[2] == 'r' && t[3] == 'g' && t[4] == 'e' && t[5] == 't');
            if i < start {
                assert(p.subrange(i, pos)[start - 1 - i] == p[start - 1]);
                assert(t.len() == 6);
                assert(pos - i == 6);
                let idx = start - 1 - i;
                assert(0 <= idx < 6);
                assert(idx == 0 || idx == 1 || idx == 2 || idx == 3 || idx == 4 || idx == 5);
                assert(t[idx] != '/');
            } else if i > start {
                assert(p[i - 1] == '/');
                assert(start <= i - 1 < pos);
            }
        }
    }
}

/// Whether the segment `cs[start..pos]` is exactly `target`.
fn segment_is_target(cs: &Vec<char>, start: usize, pos: usize) -> (r: bool)
    requires
        start <= pos <= cs.len(),
    ensures
        r == (cs@.subrange(start as int, pos as int) == target_component()),
{
    let target: [char; 6] = ['t', 'a', 'r', 'g', 'e', 't'];
    assert(target@ == target_component());
    if pos - start != 6 {
        assert(target_component().len() == 6);
        return false;
    }
    let mut k: usize = 0;
    while k < 6
        invariant
            k <= 6,
            pos - start == 6,
            start <= pos <= cs.len(),
            target@ == target_component(),
            forall|m: int| 0 <= m < k ==> cs@[start + m] == target@[m],
        decreases 6 - k,
    {
        if cs[start + k] != target[k] {
            assert(cs@.subrange(start as int, pos as int)[k as int] == cs@[start + k]);
            return false;
        }
        k += 1;
    }
    assert(cs@.subrange(start as int, pos as int) =~= target_component());
    true
}

/// Whether any component of a path is `target`, the mark of a Cargo build artifact.
pub fn path_contains_target(path: &str) -> (r: bool)
    ensures
        r == has_target_component(path@),
{
    let cs = chars_of(path);
    let mut start: usize = 0;
    let mut pos: usize = 0;
    while pos < cs.len()
        invariant
            start <= pos <= cs.len(),
            cs@ == path@,
            start == 0 || cs@[start - 1] == '/',
            forall|k: int| start <= k < pos ==> cs@[k] != '/',
            forall|i: int, j: int|
                is_component_at(cs@, i, j) && j < pos ==> #[trigger] cs@.subrange(i, j) != target_component(),
        decreases cs.len() - pos,
    {
        if cs[pos] == '/' {
            if segment_is_target(&cs, start, pos) {
                assert(is_component_at(cs@, start as int, pos as int));
                return true;
            }
            proof {
                lemma_segment_not_target(cs@, start as int, pos as int);
            }
            start = pos + 1;
        }
        pos += 1;
    }
    if segment_is_target(&cs, start, pos) {
        assert(is_component_at(cs@, start as int, pos as int));
        return true;
    }
    proof {
        lemma_segment_not_target(cs@, start as int, pos as int);
        assert forall|i: int, j: int| is_component_at(cs@, i, j) implies #[trigger] cs@.subrange(i, j)
            != target_component() by {
            if j == pos as int {
                assert(is_component_at(cs@, i, pos as int));
            }
        }
    }
    false
}

/// Whether a text is a full Git object id: 40 or 64 hexadecimal digits.
pub open spec fn is_commit_id(s: Seq<char>) -> bool {
    (s.len() == 40 || s.len() == 64) && forall|i: int| 0 <= i < s.len() ==> is_ascii_hexdigit(#[trigger] s[i])
}

/// ASCII lowercase of every character of a text.
pub open spec fn ascii_lowercase(s: Seq<char>) -> Seq<char> {
    s.map_values(|c: char| to_ascii_lowercase(c))
}

/// The first refusal of build provenance, if any: the repository must be absolute, the
/// commit a full object id, and the toolchain and build timestamp non-empty.
pub open spec fn provenance_refusal(
    repository: Seq<char>,
    commit: Seq<char>,
    rustc: Seq<char>,
    built_at: Seq<char>,
) -> Option<ReleaseError> {
    if !is_absolute_path(repository) {
        Some(ReleaseError::RepositoryNotAbsolute)
    } else if !is_commit_id(commit) {
        Some(ReleaseError::InvalidCommit)
    } else if rustc.len() == 0 || built_at.len() == 0 {
        Some(ReleaseError::EmptyBuildField)
    } else {
        None
    }
}

/// Exact build inputs recorded beside one immutable release.
#[derive(Debug, Clone, PartialEq, Eq)]
pub struct ReleaseProvenance {
    repository: String,
    commit: String,
    cargo_lock_sha256: ReleaseId,
    rustc: String,
    built_at: String,
}

/// The recorded build inputs as texts.
pub struct ProvenanceView {
    pub repository: Seq<char>,
    pub commit: Seq<char>,
    pub cargo_lock_sha256: Seq<char>,
    pub rustc: Seq<char>,
    pub built_at: Seq<char>,
}

impl View for ReleaseProvenance {
    type V = ProvenanceView;

    closed spec fn view(&self) -> ProvenanceView {
        ProvenanceView {
            repository: self.repository@,
            commit: self.commit@,
            cargo_lock_sha256: self.cargo_lock_sha256@,
            rustc: self.rustc@,
            built_at: self.built_at@,
        }
    }
}

/// Lowercases the ASCII letters of a text.
fn lowercase_ascii_text(text: &str) -> (r: String)
    ensures
        r@ == ascii_lowercase(text@),
{
    let cs = chars_of(text);
    let mut out: Vec<char> = Vec::new();
    let mut i: usize = 0;
    while i < cs.len()
        invariant
            i <= cs.len(),
            cs@ == text@,
            out@ == ascii_lowercase(cs@.take(i as int)),
        decreases cs.len() - i,
    {
        out.push(crate::text::char_to_ascii_lowercase(cs[i]));
        proof {
            assert(ascii_lowercase(cs@.take(i + 1)) =~= ascii_lowercase(cs@.take(i as int)).push(
                to_ascii_lowercase(cs@[i as int]),
            ));
        }
        i += 1;
    }
    assert(cs@.take(i as int) =~= cs@);
    string_from_chars(out.as_slice())
}

/// Whether every character of a text is a hexadecimal digit.
fn all_hex_digits(cs: &Vec<char>) -> (r: bool)
    ensures
        r == forall|i: int| 0 <= i < cs@.len() ==> is_ascii_hexdigit(#[trigger] cs@[i]),
{
    let mut i: usize = 0;
    while i < cs.len()
        invariant
            i <= cs.len(),
            forall|k: int| 0 <= k < i ==> is_ascii_hexdigit(#[trigger] cs@[k]),
        decreases cs.len() - i,
    {
        let c = cs[i];
        if !(('0' <= c && c <= '9') || ('a' <= c && c <= 'f') || ('A' <= c && c <= 'F')) {
            return false;
        }
        i += 1;
    }
    true
}

impl ReleaseProvenance {
    /// Constructs validated local build provenance; the commit is stored lowercase.
    pub fn try_new(
        repository: &str,
        commit: &str,
        cargo_lock_sha256: ReleaseId,
        rustc: &str,
        built_at: &str,
    ) -> (r: Result<Self, ReleaseError>)
        ensures
            r is Ok <==> provenance_refusal(repository@, commit@, rustc@, built_at@) is None,
            r matches Err(e) ==> provenance_refusal(repository@, commit@, rustc@, built_at@) == Some(e),
            r matches Ok(p) ==> (p@.repository == repository@ && p@.commit == ascii_lowercase(commit@)
                && p@.cargo_lock_sha256 == cargo_lock_sha256@ && p@.rustc == rustc@
                && p@.built_at == built_at@),
    {
        if !path_is_absolute(repository) {
            return Err(ReleaseError::RepositoryNotAbsolute);
        }
        let commit_chars = chars_of(commit);
        if !((commit_chars.len() == 40 || commit_chars.len() == 64) && all_hex_digits(&commit_chars)) {
            return Err(ReleaseError::InvalidCommit);
        }
        let rustc_chars = chars_of(rustc);
        let built_chars = chars_of(built_at);
        if rustc_chars.len() == 0 || built_chars.len() == 0 {
            return Err(ReleaseError::EmptyBuildField);
        }
        Ok(Self {
            repository: owned(repository),
            commit: lowercase_ascii_text(commit),
            cargo_lock_sha256,
            rustc: owned(rustc),
            built_at: owned(built_at),
        })
    }

    /// Returns the source repository.
    pub fn repository(&self) -> (r: &str)
        ensures
            r@ == self@.repository,
    {
        self.repository.as_str()
    }

    /// Returns the exact source commit.
    pub fn commit(&self) -> (r: &str)
        ensures
            r@ == self@.commit,
    {
        self.commit.as_str()
    }

    /// Returns the Cargo lockfile digest.
    pub fn cargo_lock_sha256(&self) -> (r: &ReleaseId)
        ensures
            r@ == self@.cargo_lock_sha256,
    {
        &self.cargo_lock_sha256
    }

    /// Returns the compiler identity.
    pub fn rustc(&self) -> (r: &str)
        ensures
            r@ == self@.rustc,
    {
        self.rustc.as_str()
    }

    /// Returns the build timestamp.
    pub fn built_at(&self) -> (r: &str)
        ensures
            r@ == self@.built_at,
    {
        self.built_at.as_str()
    }
}

/// Whether some argument contains a NUL character.
pub open spec fn has_nul_argument(arguments: Seq<Seq<char>>) -> bool {
    exists|i: int| 0 <= i < arguments.len() && #[trigger] arguments[i].contains('\0')
}

/// The texts of a list of strings.
pub open spec fn texts(v: Seq<String>) -> Seq<Seq<char>> {
    v.map_values(|s: String| s@)
}

/// The first refusal of a release manifest, if any.
pub open spec fn manifest_refusal(
    schema: u32,
    server: Seq<char>,
    executable: Seq<char>,
    arguments: Seq<Seq<char>>,
) -> Option<ReleaseError> {
    if schema != RELEASE_SCHEMA {
        Some(ReleaseError::UnsupportedManifestSchema(schema))
    } else if !is_server_name(server) {
        Some(ReleaseError::InvalidServerName)
    } else if !is_absolute_path(executable) {
        Some(ReleaseError::ExecutableNotAbsolute)
    } else if has_nul_argument(arguments) {
        Some(ReleaseError::ArgumentContainsNul)
    } else {
        None
    }
}

/// Immutable description of one verified server executable.
#[derive(Debug, Clone, PartialEq, Eq)]
pub struct ReleaseManifest {
    schema: u32,
    server: String,
    generation: ReleaseId,
    binary_sha256: ReleaseId,
    executable: String,
    arguments: Vec<String>,
    state: StateCompatibility,
    provenance: ReleaseProvenance,
}

/// A manifest's fields as mathematical values.
pub struct ManifestView {
    pub schema: u32,
    pub server: Seq<char>,
    pub generation: Seq<char>,
    pub binary_sha256: Seq<char>,
    pub executable: Seq<char>,
    pub arguments: Seq<Seq<char>>,
    pub state: StateCompatibility,
    pub provenance: ProvenanceView,
}

impl View for ReleaseManifest {
    type V = ManifestView;

    closed spec fn view(&self) -> ManifestView {
        ManifestView {
            schema: self.schema,
            server: self.server@,
            generation: self.generation@,
            binary_sha256: self.binary_sha256@,
            executable: self.executable@,
            arguments: texts(self.arguments@),
            state: self.state,
            provenance: self.provenance@,
        }
    }
}

/// Finds a NUL character in any argument.
fn any_argument_has_nul(arguments: &Vec<String>) -> (r: bool)
    ensures
        r == has_nul_argument(texts(arguments@)),
{
    let mut i: usize = 0;
    while i < arguments.len()
        invariant
            i <= arguments.len(),
            forall|k: int| 0 <= k < i ==> !(#[trigger] arguments@[k])@.contains('\0'),
        decreases arguments.len() - i,
    {
        let cs = chars_of(arguments[i].as_str());
        if crate::text::chars_contain(cs.as_slice(), '\0') {
            assert(texts(arguments@)[i as int].contains('\0'));
            return true;
        }
        i += 1;
    }
    assert forall|k: int| 0 <= k < texts(arguments@).len() implies !(#[trigger] texts(arguments@)[k]).contains(
        '\0',
    ) by {
        assert(texts(arguments@)[k] == arguments@[k]@);
    }
    false
}

impl ReleaseManifest {
    /// Builds a manifest from its decoded fields and refuses it as `validate` does.
    pub fn from_document(
        schema: u32,
        server: &str,
        generation: ReleaseId,
        binary_sha256: ReleaseId,
        executable: &str,
        arguments: Vec<String>,
        state: StateCompatibility,
        provenance: ReleaseProvenance,
    ) -> (r: Result<Self, ReleaseError>)
        ensures
            r is Ok <==> manifest_refusal(schema, server@, executable@, texts(arguments@)) is None,
            r matches Err(e) ==> manifest_refusal(schema, server@, executable@, texts(arguments@)) == Some(e),
            r matches Ok(m) ==> (m@.schema == schema && m@.server == server@ && m@.generation == generation@
                && m@.binary_sha256 == binary_sha256@ && m@.executable == executable@
                && m@.arguments == texts(arguments@) && m@.state == state && m@.provenance == provenance@),
    {
        let manifest = Self {
            schema,
            server: owned(server),
            generation,
            binary_sha256,
            executable: owned(executable),
            arguments,
            state,
            provenance,
        };
        match manifest.validate() {
            Ok(()) => Ok(manifest),
            Err(e) => Err(e),
        }
    }

    /// Constructs a release manifest of the current schema. The executable digest is verified separately.
    pub fn try_new(
        server: &str,
        generation: ReleaseId,
        binary_sha256: ReleaseId,
        executable: &str,
        arguments: Vec<String>,
        state: StateCompatibility,
        provenance: ReleaseProvenance,
    ) -> (r: Result<Self, ReleaseError>)
        ensures
            r is Ok <==> manifest_refusal(RELEASE_SCHEMA, server@, executable@, texts(arguments@)) is None,
            r matches Err(e) ==> manifest_refusal(RELEASE_SCHEMA, server@, executable@, texts(arguments@))
                == Some(e),
            r matches Ok(m) ==> (m@.schema == RELEASE_SCHEMA && m@.server == server@
                && m@.generation == generation@ && m@.binary_sha256 == binary_sha256@
                && m@.executable == executable@ && m@.arguments == texts(arguments@) && m@.state == state
                && m@.provenance == provenance@),
    {
        Self::from_document(
            RELEASE_SCHEMA,
            server,
            generation,
            binary_sha256,
            executable,
            arguments,
            state,
            provenance,
        )
    }

    /// Checks the schema, server name, executable path, and arguments.
    pub fn validate(&self) -> (r: Result<(), ReleaseError>)
        ensures
            r is Ok <==> manifest_refusal(self@.schema, self@.server, self@.executable, self@.arguments) is None,
            r matches Err(e) ==> manifest_refusal(self@.schema, self@.server, self@.executable, self@.arguments)
                == Some(e),
    {
        if self.schema != RELEASE_SCHEMA {
            return Err(ReleaseError::UnsupportedManifestSchema(self.schema));
        }
        if validate_server_name(self.server.as_str()).is_err() {
            return Err(ReleaseError::InvalidServerName);
        }
        if !path_is_absolute(self.executable.as_str()) {
            return Err(ReleaseError::ExecutableNotAbsolute);
        }
        if any_argument_has_nul(&self.arguments) {
            return Err(ReleaseError::ArgumentContainsNul);
        }
        Ok(())
    }

    /// Returns the server name.
    pub fn server(&self) -> (r: &str)
        ensures
            r@ == self@.server,
    {
        self.server.as_str()
    }

    /// Returns the executable digest and generation identity.
    pub fn generation(&self) -> (r: &ReleaseId)
        ensures
            r@ == self@.generation,
    {
        &self.generation
    }

    /// Returns the exact executable digest.
    pub fn binary_sha256(&self) -> (r: &ReleaseId)
        ensures
            r@ == self@.binary_sha256,
    {
        &self.binary_sha256
    }

    /// Returns the immutable executable path.
    pub fn executable(&self) -> (r: &str)
        ensures
            r@ == self@.executable,
    {
        self.executable.as_str()
    }

    /// Returns the default server arguments used for a fresh launch.
    pub fn arguments(&self) -> (r: &[String])
        ensures
            texts(r@) == self@.arguments,
    {
        self.arguments.as_slice()
    }

    /// Returns the state compatibility contract.
    pub fn state(&self) -> (r: &StateCompatibility)
        ensures
            *r == self@.state,
    {
        &self.state
    }

    /// Returns exact source and toolchain provenance.
    pub fn provenance(&self) -> (r: &ReleaseProvenance)
        ensures
            r@ == self@.provenance,
    {
        &self.provenance
    }

    /// Refuses a loaded release that names another server or whose directory is not named
    /// after its generation.
    pub fn check_selected(&self, expected_server: &str, release_directory: &str) -> (r: Result<(), ReleaseError>)
        ensures
            r is Ok <==> (self@.server == expected_server@ && release_directory@ == self@.generation),
            r matches Err(e) ==> (if self@.server != expected_server@ {
                e == ReleaseError::ServerMismatch
            } else {
                e == ReleaseError::DirectoryGenerationMismatch
            }),
    {
        if !crate::text::str_eq(self.server.as_str(), expected_server) {
            return Err(ReleaseError::ServerMismatch);
        }
        if !crate::text::str_eq(release_directory, self.generation.as_str()) {
            return Err(ReleaseError::DirectoryGenerationMismatch);
        }
        Ok(())
    }
}

/// Verifies that a release executable's bytes hash to the recorded binary digest.
pub fn verify_release(release: &ReleaseManifest, executable: &[u8]) -> (r: Result<(), ReleaseError>)
    ensures
        r is Ok <==> lower_hex(sha256_digest(executable@)) == release@.binary_sha256,
        r matches Err(e) ==> e == ReleaseError::DigestMismatch,
{
    let observed = ReleaseId::digest_bytes(executable);
    match observed {
        Ok(id) => {
            if id.same_as(release.binary_sha256()) {
                Ok(())
            } else {
                Err(ReleaseError::DigestMismatch)
            }
        },
        Err(_) => Err(ReleaseError::DigestMismatch),
    }
}

/// Mutable channel value selecting one immutable release manifest.
#[derive(Debug, Clone, PartialEq, Eq)]
pub struct ReleasePointer {
    schema: u32,
    manifest: String,
}

/// The first refusal of a release pointer, if any.
pub open spec fn pointer_refusal(schema: u32, manifest: Seq<char>) -> Option<ReleaseError> {
    if schema != RELEASE_SCHEMA {
        Some(ReleaseError::UnsupportedPointerSchema(schema))
    } else if !is_absolute_path(manifest) {
        Some(ReleaseError::ManifestNotAbsolute)
    } else {
        None
    }
}

impl ReleasePointer {
    /// The pointer's schema number.
    pub closed spec fn spec_schema(&self) -> u32 {
        self.schema
    }

    /// The selected manifest path.
    pub closed spec fn spec_manifest(&self) -> Seq<char> {
        self.manifest@
    }

    /// Constructs a pointer to an absolute immutable manifest path.
    pub fn try_new(manifest: &str) -> (r: Result<Self, ReleaseError>)
        ensures
            r is Ok <==> is_absolute_path(manifest@),
            r matches Err(e) ==> e == ReleaseError::ManifestNotAbsolute,
            r matches Ok(p) ==> p.spec_schema() == RELEASE_SCHEMA && p.spec_manifest() == manifest@,
    {
        if !path_is_absolute(manifest) {
            return Err(ReleaseError::ManifestNotAbsolute);
        }
        Ok(Self { schema: RELEASE_SCHEMA, manifest: owned(manifest) })
    }

    /// Builds a pointer from its decoded fields and refuses it as `validate` does.
    pub fn from_document(schema: u32, manifest: &str) -> (r: Result<Self, ReleaseError>)
        ensures
            r is Ok <==> pointer_refusal(schema, manifest@) is None,
            r matches Err(e) ==> pointer_refusal(schema, manifest@) == Some(e),
            r matches Ok(p) ==> p.spec_schema() == schema && p.spec_manifest() == manifest@,
    {
        let pointer = Self { schema, manifest: owned(manifest) };
        match pointer.validate() {
            Ok(()) => Ok(pointer),
            Err(e) => Err(e),
        }
    }

    /// Checks the schema and that the manifest path is absolute.
    pub fn validate(&self) -> (r: Result<(), ReleaseError>)
        ensures
            r is Ok <==> pointer_refusal(self.spec_schema(), self.spec_manifest()) is None,
            r matches Err(e) ==> pointer_refusal(self.spec_schema(), self.spec_manifest()) == Some(e),
    {
        if self.schema != RELEASE_SCHEMA {
            return Err(ReleaseError::UnsupportedPointerSchema(self.schema));
        }
        if !path_is_absolute(self.manifest.as_str()) {
            return Err(ReleaseError::ManifestNotAbsolute);
        }
        Ok(())
    }

    /// Returns the schema number.
    pub fn schema(&self) -> (r: u32)
        ensures
            r == self.spec_schema(),
    {
        self.schema
    }

    /// Returns the selected immutable manifest path.
    pub fn manifest(&self) -> (r: &str)
        ensures
            r@ == self.spec_manifest(),
    {
        self.manifest.as_str()
    }
}

/// Largest release pointer file, in bytes.
pub const POINTER_MAX_BYTES: u64 = 8192;
/// Largest release manifest file, in bytes.
pub const MANIFEST_MAX_BYTES: u64 = 65536;
/// How long a replaced executable must stay unchanged before it is handed the session.
pub const SUCCESSOR_SETTLE_MILLIS: u64 = 200;
/// How long a successor waits at its private readiness gate, in seconds.
pub const SUCCESSOR_GATE_TIMEOUT_SECS: u64 = 15;
/// Gate byte: the successor is ready.
pub const GATE_READY: u8 = 82;
/// Gate byte: the incumbent activates the successor.
pub const GATE_ACTIVATE: u8 = 65;
/// Gate byte: the successor is live.
pub const GATE_LIVE: u8 = 76;

/// Refuses release metadata longer than `max_bytes`.
pub fn check_metadata_size(length: u64, max_bytes: u64) -> (r: Result<(), ReleaseError>)
    ensures
        r is Ok <==> length <= max_bytes,
        r matches Err(e) ==> e == ReleaseError::MetadataTooLarge(max_bytes),
{
    if length > max_bytes {
        Err(ReleaseError::MetadataTooLarge(max_bytes))
    } else {
        Ok(())
    }
}

/// Whether a release file is a regular file owned by the user and writable by no other principal.
pub open spec fn is_private_file(is_file: bool, owner: u32, user: u32, mode: u32) -> bool {
    is_file && owner == user && mode & 0o022u32 == 0
}

/// Whether a release executable is additionally owner-executable and carries no set-id bit.
pub open spec fn is_private_executable(is_file: bool, owner: u32, user: u32, mode: u32) -> bool {
    is_private_file(is_file, owner, user, mode) && mode & 0o100u32 != 0 && mode & 0o6000u32 == 0
}

/// Refuses a release file that is not a private regular file of the user.
pub fn check_private_file(is_file: bool, owner: u32, user: u32, mode: u32) -> (r: Result<(), ReleaseError>)
    ensures
        r is Ok <==> is_private_file(is_file, owner, user, mode),
        r matches Err(e) ==> e == ReleaseError::FileNotPrivate,
{
    if is_file && owner == user && mode & 0o022u32 == 0 {
        Ok(())
    } else {
        Err(ReleaseError::FileNotPrivate)
    }
}

/// Refuses a release executable that is not a private, owner-executable regular file.
pub fn check_private_executable(is_file: bool, owner: u32, user: u32, mode: u32) -> (r: Result<(), ReleaseError>)
    ensures
        r is Ok <==> is_private_executable(is_file, owner, user, mode),
        r matches Err(e) ==> e == ReleaseError::ExecutableNotPrivate,
{
    if is_file && owner == user && mode & 0o022u32 == 0 && mode & 0o100u32 != 0 && mode & 0o6000u32 == 0 {
        Ok(())
    } else {
        Err(ReleaseError::ExecutableNotPrivate)
    }
}

/// Refuses a gate byte other than the expected protocol byte.
pub fn expect_gate_byte(observed: u8, expected: u8) -> (r: Result<(), ReleaseError>)
    ensures
        r is Ok <==> observed == expected,
        r matches Err(e) ==> e == ReleaseError::UnexpectedGateByte(observed),
{
    if observed == expected {
        Ok(())
    } else {
        Err(ReleaseError::UnexpectedGateByte(observed))
    }
}

/// One observation of the executable source selected for a host.
#[derive(Debug, Clone, Copy, PartialEq, Eq, Structural)]
pub enum ReleaseObservation {
    /// The running executable remains selected.
    Incumbent,
    /// A directly replaced executable is still settling.
    SuccessorSettling,
    /// A complete, verified successor is ready for handoff.
    SuccessorReady,
}

impl ReleaseObservation {
    /// Returns whether any successor work is pending.
    pub fn rollout_pending(self) -> (r: bool)
        ensures
            r == !(self is Incumbent),
    {
        !matches!(self, ReleaseObservation::Incumbent)
    }

    /// Returns whether a successor can be handed the public session.
    pub fn rollout_ready(self) -> (r: bool)
        ensures
            r == (self is SuccessorReady),
    {
        matches!(self, ReleaseObservation::SuccessorReady)
    }
}

/// Result of attempting a two-phase successor handoff.
#[derive(Debug, Clone, Copy, PartialEq, Eq, Structural)]
pub enum HandoffOutcome {
    /// No successor was armed; the incumbent retains the session.
    Retained,
    /// The successor reported live and the incumbent must stop reading immediately.
    Relinquish,
}

/// Identity of an executable file as observed on disk: length, modification time, device, inode.
#[derive(Debug, Clone, Copy, PartialEq, Eq, Structural)]
pub struct BinaryFingerprint {
    /// Length in bytes.
    pub length_bytes: u64,
    /// Whole seconds of the modification time relative to the Unix epoch.
    pub modified_secs: i64,
    /// Sub-second nanoseconds of the modification time.
    pub modified_nanos: u32,
    /// Device number.
    pub device: u64,
    /// Inode number.
    pub inode: u64,
}

/// A replaced executable waiting to settle.
#[derive(Debug)]
struct SettlingSuccessor {
    fingerprint: BinaryFingerprint,
    first_observed_at: std::time::Instant,
}

/// The successor armed for a handoff.
#[derive(Debug)]
pub struct SuccessorTarget {
    executable: String,
    channel: Option<String>,
    generation: Option<ReleaseId>,
}

/// An armed successor as texts.
pub struct TargetView {
    pub executable: Seq<char>,
    pub channel: Option<Seq<char>>,
    pub generation: Option<Seq<char>>,
}

/// The text of an optional string.
pub open spec fn opt_text(s: Option<String>) -> Option<Seq<char>> {
    match s {
        Some(t) => Some(t@),
        None => None,
    }
}

/// The text of an optional release identity.
pub open spec fn opt_id(s: Option<ReleaseId>) -> Option<Seq<char>> {
    match s {
        Some(t) => Some(t@),
        None => None,
    }
}

impl View for SuccessorTarget {
    type V = TargetView;

    closed spec fn view(&self) -> TargetView {
        TargetView {
            executable: self.executable@,
            channel: opt_text(self.channel),
            generation: opt_id(self.generation),
        }
    }
}

#[derive(Debug)]
enum ReleaseMode {
    Standalone { executable: String, incumbent: BinaryFingerprint, settling: Option<SettlingSuccessor> },
    Managed { channel: String, server: String, incumbent: ReleaseId },
}

/// How the running executable is selected.
pub enum ModeView {
    /// The host observes atomic replacement of its own executable.
    Standalone { executable: Seq<char>, incumbent: BinaryFingerprint, settling: Option<BinaryFingerprint> },
    /// A depot launcher selects releases through a channel pointer.
    Managed { channel: Seq<char>, server: Seq<char>, incumbent: Seq<char> },
}

/// The release runtime as mathematical values.
pub struct RuntimeView {
    pub mode: ModeView,
    pub successor: Option<TargetView>,
    pub successor_gate: Option<Seq<char>>,
}

/// The fingerprint of an optional settling successor.
pub closed spec fn settling_view(s: Option<SettlingSuccessor>) -> Option<BinaryFingerprint> {
    match s {
        Some(c) => Some(c.fingerprint),
        None => None,
    }
}

/// The view of an optional armed successor.
pub open spec fn target_view(s: Option<SuccessorTarget>) -> Option<TargetView> {
    match s {
        Some(t) => Some(t@),
        None => None,
    }
}

/// Optional release runtime embedded by a standalone-capable MCP host.
///
/// With no managed environment, this observes only atomic replacement of the
/// current executable. A depot launcher activates channel polling by setting
/// the release channel and generation.
#[derive(Debug)]
pub struct ReleaseRuntime {
    mode: ReleaseMode,
    successor: Option<SuccessorTarget>,
    successor_gate: Option<String>,
}

impl View for ReleaseRuntime {
    type V = RuntimeView;

    closed spec fn view(&self) -> RuntimeView {
        RuntimeView {
            mode: match self.mode {
                ReleaseMode::Standalone { executable, incumbent, settling } => ModeView::Standalone {
                    executable: executable@,
                    incumbent,
                    settling: settling_view(settling),
                },
                ReleaseMode::Managed { channel, server, incumbent } => ModeView::Managed {
                    channel: channel@,
                    server: server@,
                    incumbent: incumbent@,
                },
            },
            successor: target_view(self.successor),
            successor_gate: opt_text(self.successor_gate),
        }
    }
}

/// The private readiness gate named by the handoff socket variable: unset and empty mean none.
pub open spec fn gate_of(handoff_socket: Option<Seq<char>>) -> Option<Seq<char>> {
    match handoff_socket {
        Some(s) => if s.len() > 0 { Some(s) } else { None },
        None => None,
    }
}

/// The first refusal of a release environment, if any.
pub open spec fn environment_refusal(
    server: Seq<char>,
    channel: Option<Seq<char>>,
    generation: Option<Seq<char>>,
    standalone_known: bool,
) -> Option<ReleaseError> {
    if !is_server_name(server) {
        Some(ReleaseError::InvalidServerName)
    } else {
        match (channel, generation) {
            (None, None) => if standalone_known { None } else { Some(ReleaseError::CurrentExecutableUnknown) },
            (Some(c), Some(g)) => if !is_absolute_path(c) {
                Some(ReleaseError::ChannelNotAbsolute)
            } else if !is_release_id(g) {
                Some(ReleaseError::InvalidReleaseId)
            } else {
                None
            },
            _ => Some(ReleaseError::IncompleteManagedEnvironment),
        }
    }
}

/// The text of an optional string slice.
pub open spec fn opt_str(s: Option<&str>) -> Option<Seq<char>> {
    match s {
        Some(t) => Some(t@),
        None => None,
    }
}

/// Copies an optional string slice.
fn owned_opt(s: Option<&str>) -> (r: Option<String>)
    ensures
        opt_text(r) == opt_str(s),
{
    match s {
        Some(t) => Some(owned(t)),
        None => None,
    }
}

impl ReleaseRuntime {
    /// Whether the runtime selects releases through a managed channel.
    pub open spec fn spec_is_managed(&self) -> bool {
        self@.mode is Managed
    }

    /// Discovers standalone or managed execution for `server` from the release environment:
    /// the channel and generation variables, the handoff socket variable, and, for standalone
    /// execution, the current executable with its fingerprint.
    pub fn discover(
        server: &str,
        channel: Option<&str>,
        generation: Option<&str>,
        handoff_socket: Option<&str>,
        current_executable: Option<(&str, BinaryFingerprint)>,
    ) -> (r: Result<Self, ReleaseError>)
        ensures
            r is Ok <==> environment_refusal(server@, opt_str(channel), opt_str(generation), current_executable is Some)
                is None,
            r matches Err(e) ==> environment_refusal(
                server@,
                opt_str(channel),
                opt_str(generation),
                current_executable is Some,
            ) == Some(e),
            r matches Ok(rt) ==> {
                &&& rt@.successor is None
                &&& rt@.successor_gate == gate_of(opt_str(handoff_socket))
                &&& match (channel, generation) {
                    (Some(c), Some(g)) => rt@.mode == (ModeView::Managed {
                        channel: c@,
                        server: server@,
                        incumbent: g@,
                    }),
                    _ => current_executable matches Some((exe, fp)) && rt@.mode == (ModeView::Standalone {
                        executable: exe@,
                        incumbent: fp,
                        settling: None,
                    }),
                }
            },
    {
        if validate_server_name(server).is_err() {
            return Err(ReleaseError::InvalidServerName);
        }
        let mode = match (channel, generation) {
            (None, None) => match current_executable {
                Some((executable, incumbent)) => ReleaseMode::Standalone {
                    executable: owned(executable),
                    incumbent,
                    settling: None,
                },
                None => {
                    return Err(ReleaseError::CurrentExecutableUnknown);
                },
            },
            (Some(channel), Some(generation)) => {
                if !path_is_absolute(channel) {
                    return Err(ReleaseError::ChannelNotAbsolute);
                }
                let incumbent = match ReleaseId::try_new(generation) {
                    Ok(id) => id,
                    Err(e) => {
                        return Err(e);
                    },
                };
                ReleaseMode::Managed { channel: owned(channel), server: owned(server), incumbent }
            },
            _ => {
                return Err(ReleaseError::IncompleteManagedEnvironment);
            },
        };
        let successor_gate = match handoff_socket {
            Some(socket) => if chars_of(socket).len() > 0 {
                Some(owned(socket))
            } else {
                None
            },
            None => None,
        };
        Ok(Self { mode, successor: None, successor_gate })
    }

    /// Returns whether the executable is selected through a managed channel.
    pub fn is_managed(&self) -> (r: bool)
        ensures
            r == self.spec_is_managed(),
    {
        matches!(self.mode, ReleaseMode::Managed { .. })
    }

    /// Returns whether the launch path is durable rather than a Cargo target artifact.
    pub fn launch_path_stable(&self) -> (r: bool)
        ensures
            r == match self@.mode {
                ModeView::Managed { .. } => true,
                ModeView::Standalone { executable, .. } => !has_target_component(executable),
            },
    {
        match &self.mode {
            ReleaseMode::Managed { .. } => true,
            ReleaseMode::Standalone { executable, .. } => !path_contains_target(executable.as_str()),
        }
    }

    /// Returns the managed generation, if any.
    pub fn generation(&self) -> (r: Option<&ReleaseId>)
        ensures
            match self@.mode {
                ModeView::Managed { incumbent, .. } => r matches Some(id) && id@ == incumbent,
                ModeView::Standalone { .. } => r is None,
            },
    {
        match &self.mode {
            ReleaseMode::Managed { incumbent, .. } => Some(incumbent),
            ReleaseMode::Standalone { .. } => None,
        }
    }

    /// The channel pointer and server name polled in managed execution.
    pub fn managed_channel(&self) -> (r: Option<(&str, &str)>)
        ensures
            match self@.mode {
                ModeView::Managed { channel, server, .. } => r matches Some((c, s)) && c@ == channel && s@ == server,
                ModeView::Standalone { .. } => r is None,
            },
    {
        match &self.mode {
            ReleaseMode::Managed { channel, server, .. } => Some((channel.as_str(), server.as_str())),
            ReleaseMode::Standalone { .. } => None,
        }
    }

    /// The executable observed in standalone execution.
    pub fn standalone_executable(&self) -> (r: Option<&str>)
        ensures
            match self@.mode {
                ModeView::Standalone { executable, .. } => r matches Some(e) && e@ == executable,
                ModeView::Managed { .. } => r is None,
            },
    {
        match &self.mode {
            ReleaseMode::Standalone { executable, .. } => Some(executable.as_str()),
            ReleaseMode::Managed { .. } => None,
        }
    }

    /// The armed successor, if any.
    pub fn successor(&self) -> (r: Option<&SuccessorTarget>)
        ensures
            target_view(match r { Some(t) => Some(*t), None => None }) == self@.successor,
    {
        match &self.successor {
            Some(t) => Some(t),
            None => None,
        }
    }
}

/// What a standalone observation reports: the executable vanished (settling), is the
/// incumbent, or is a replacement that is ready only once it has settled unchanged.
pub open spec fn standalone_observation(
    incumbent: BinaryFingerprint,
    settling: Option<BinaryFingerprint>,
    observed: Option<BinaryFingerprint>,
    settled: bool,
) -> ReleaseObservation {
    match observed {
        None => ReleaseObservation::SuccessorSettling,
        Some(fp) => if fp == incumbent {
            ReleaseObservation::Incumbent
        } else if settling == Some(fp) && settled {
            ReleaseObservation::SuccessorReady
        } else {
            ReleaseObservation::SuccessorSettling
        },
    }
}

/// The replacement awaiting settlement after a standalone observation.
pub open spec fn standalone_settling_after(
    incumbent: BinaryFingerprint,
    settling: Option<BinaryFingerprint>,
    observed: Option<BinaryFingerprint>,
) -> Option<BinaryFingerprint> {
    match observed {
        None => None,
        Some(fp) => if fp == incumbent {
            None
        } else if settling == Some(fp) {
            settling
        } else {
            Some(fp)
        },
    }
}

/// The armed successor after a standalone observation.
pub open spec fn standalone_successor_after(
    executable: Seq<char>,
    incumbent: BinaryFingerprint,
    settling: Option<BinaryFingerprint>,
    successor: Option<TargetView>,
    observed: Option<BinaryFingerprint>,
    settled: bool,
) -> Option<TargetView> {
    match observed {
        None => successor,
        Some(fp) => if fp == incumbent {
            None
        } else if settling == Some(fp) && settled {
            Some(TargetView { executable, channel: None, generation: None })
        } else {
            successor
        },
    }
}

/// The runtime after one standalone observation, given whether the pending replacement has settled.
pub open spec fn standalone_step(
    rt: RuntimeView,
    observed: Option<BinaryFingerprint>,
    settled: bool,
    r: ReleaseObservation,
    next: RuntimeView,
) -> bool {
    match rt.mode {
        ModeView::Standalone { executable, incumbent, settling } => {
            &&& r == standalone_observation(incumbent, settling, observed, settled)
            &&& next.mode == (ModeView::Standalone {
                executable,
                incumbent,
                settling: standalone_settling_after(incumbent, settling, observed),
            })
            &&& next.successor == standalone_successor_after(
                executable,
                incumbent,
                settling,
                rt.successor,
                observed,
                settled,
            )
            &&& next.successor_gate == rt.successor_gate
        },
        ModeView::Managed { .. } => false,
    }
}

/// The runtime after one managed observation of the selected release, given the bytes of its
/// executable when they were read.
pub open spec fn managed_step(
    rt: RuntimeView,
    release: ManifestView,
    executable: Option<Seq<u8>>,
    r: Result<ReleaseObservation, ReleaseError>,
    next: RuntimeView,
) -> bool {
    match rt.mode {
        ModeView::Managed { channel, incumbent, .. } => {
            &&& next.mode == rt.mode
            &&& next.successor_gate == rt.successor_gate
            &&& if release.generation == incumbent {
                r == Ok::<ReleaseObservation, ReleaseError>(ReleaseObservation::Incumbent) && next.successor is None
            } else if rt.successor matches Some(t) && t.generation == Some(release.generation) {
                r == Ok::<ReleaseObservation, ReleaseError>(ReleaseObservation::SuccessorReady)
                    && next.successor == rt.successor
            } else {
                match executable {
                    None => r == Err::<ReleaseObservation, ReleaseError>(ReleaseError::SuccessorUnverified)
                        && next.successor == rt.successor,
                    Some(bytes) => if lower_hex(sha256_digest(bytes)) == release.binary_sha256 {
                        r == Ok::<ReleaseObservation, ReleaseError>(ReleaseObservation::SuccessorReady)
                            && next.successor == Some(TargetView {
                            executable: release.executable,
                            channel: Some(channel),
                            generation: Some(release.generation),
                        })
                    } else {
                        r == Err::<ReleaseObservation, ReleaseError>(ReleaseError::DigestMismatch)
                            && next.successor == rt.successor
                    },
                }
            }
        },
        ModeView::Standalone { .. } => false,
    }
}

/// Whether a managed observation of `release` must first hash its executable: it is neither
/// the incumbent nor the successor already armed.
pub open spec fn needs_verification(rt: RuntimeView, release: ManifestView) -> bool {
    match rt.mode {
        ModeView::Managed { incumbent, .. } => release.generation != incumbent && !(rt.successor matches Some(
            t,
        ) && t.generation == Some(release.generation)),
        ModeView::Standalone { .. } => false,
    }
}

impl SuccessorTarget {
    /// The successor executable.
    pub fn executable(&self) -> (r: &str)
        ensures
            r@ == self@.executable,
    {
        self.executable.as_str()
    }

    /// The channel the successor is launched with, if managed.
    pub fn channel(&self) -> (r: Option<&str>)
        ensures
            opt_str(r) == self@.channel,
    {
        match &self.channel {
            Some(c) => Some(c.as_str()),
            None => None,
        }
    }

    /// The generation the successor is launched with, if managed.
    pub fn generation(&self) -> (r: Option<&ReleaseId>)
        ensures
            opt_id(match r { Some(g) => Some(*g), None => None }) == self@.generation,
    {
        match &self.generation {
            Some(g) => Some(g),
            None => None,
        }
    }
}

/// Whether the armed successor already is generation `generation`.
fn armed_generation_is(successor: &Option<SuccessorTarget>, generation: &ReleaseId) -> (r: bool)
    ensures
        r == (target_view(*successor) matches Some(t) && t.generation == Some(generation@)),
{
    match successor {
        Some(target) => match &target.generation {
            Some(g) => g.same_as(generation),
            None => false,
        },
        None => false,
    }
}

impl ReleaseRuntime {
    /// Whether observing `release` requires hashing its executable first.
    pub fn selected_release_needs_verification(&self, release: &ReleaseManifest) -> (r: bool)
        ensures
            r == needs_verification(self@, release@),
    {
        match &self.mode {
            ReleaseMode::Managed { incumbent, .. } => {
                !release.generation().same_as(incumbent) && !armed_generation_is(
                    &self.successor,
                    release.generation(),
                )
            },
            ReleaseMode::Standalone { .. } => false,
        }
    }

    /// Observes the release selected through the managed channel. `executable` holds the bytes of
    /// the release executable when the selection needs verification.
    pub fn observe_managed(&mut self, release: &ReleaseManifest, executable: Option<&[u8]>) -> (r: Result<
        ReleaseObservation,
        ReleaseError,
    >)
        requires
            old(self).spec_is_managed(),
        ensures
            managed_step(old(self)@, release@, match executable { Some(b) => Some(b@), None => None }, r, final(self)@),
    {
        let (channel_text, same_as_incumbent) = match &self.mode {
            ReleaseMode::Managed { channel, incumbent, .. } => (
                channel.clone(),
                release.generation().same_as(incumbent),
            ),
            ReleaseMode::Standalone { .. } => {
                return Err(ReleaseError::SuccessorUnverified);
            },
        };
        if same_as_incumbent {
            self.successor = None;
            return Ok(ReleaseObservation::Incumbent);
        }
        if armed_generation_is(&self.successor, release.generation()) {
            return Ok(ReleaseObservation::SuccessorReady);
        }
        let bytes = match executable {
            Some(b) => b,
            None => {
                return Err(ReleaseError::SuccessorUnverified);
            },
        };
        match verify_release(release, bytes) {
            Ok(()) => {},
            Err(e) => {
                return Err(e);
            },
        }
        self.successor = Some(
            SuccessorTarget {
                executable: owned(release.executable()),
                channel: Some(channel_text),
                generation: Some(release.generation().duplicate()),
            },
        );
        Ok(ReleaseObservation::SuccessorReady)
    }
}

impl ReleaseRuntime {
    /// Applies one observation of the standalone executable: `observed` is its fingerprint, or
    /// `None` when the file is missing, and `settled` says whether the pending replacement has
    /// stayed unchanged for the settle time.
    pub fn apply_standalone_observation(&mut self, observed: Option<BinaryFingerprint>, settled: bool) -> (r:
        ReleaseObservation)
        requires
            !old(self).spec_is_managed(),
        ensures
            standalone_step(old(self)@, observed, settled, r, final(self)@),
    {
        let (executable, incumbent, pending) = match &self.mode {
            ReleaseMode::Standalone { executable, incumbent, settling } => (
                executable.clone(),
                *incumbent,
                match settling {
                    Some(c) => Some(c.fingerprint),
                    None => None,
                },
            ),
            ReleaseMode::Managed { .. } => {
                return ReleaseObservation::Incumbent;
            },
        };
        let fp = match observed {
            Some(fp) => fp,
            None => {
                self.clear_settling();
                return ReleaseObservation::SuccessorSettling;
            },
        };
        if fp == incumbent {
            self.clear_settling();
            self.successor = None;
            return ReleaseObservation::Incumbent;
        }
        match pending {
            Some(candidate) => {
                if candidate == fp {
                    if settled {
                        self.successor = Some(
                            SuccessorTarget { executable, channel: None, generation: None },
                        );
                        return ReleaseObservation::SuccessorReady;
                    }
                    return ReleaseObservation::SuccessorSettling;
                }
            },
            None => {},
        }
        self.mode = ReleaseMode::Standalone {
            executable,
            incumbent,
            settling: Some(SettlingSuccessor { fingerprint: fp, first_observed_at: crate::host::instant_now() }),
        };
        ReleaseObservation::SuccessorSettling
    }

    /// Forgets the replacement awaiting settlement.
    fn clear_settling(&mut self)
        requires
            !old(self).spec_is_managed(),
        ensures
            final(self)@.successor == old(self)@.successor,
            final(self)@.successor_gate == old(self)@.successor_gate,
            match old(self)@.mode {
                ModeView::Standalone { executable, incumbent, .. } => final(self)@.mode == (ModeView::Standalone {
                    executable,
                    incumbent,
                    settling: None,
                }),
                ModeView::Managed { .. } => false,
            },
    {
        match &self.mode {
            ReleaseMode::Standalone { executable, incumbent, .. } => {
                let executable = executable.clone();
                let incumbent = *incumbent;
                self.mode = ReleaseMode::Standalone { executable, incumbent, settling: None };
            },
            ReleaseMode::Managed { .. } => {},
        }
    }

    /// Observes the standalone executable, `observed` being its current fingerprint or `None`
    /// when it is missing. Whether a pending replacement has settled is read from the clock, so
    /// the result is one of the two steps.
    pub fn observe_standalone(&mut self, observed: Option<BinaryFingerprint>) -> (r: ReleaseObservation)
        requires
            !old(self).spec_is_managed(),
        ensures
            standalone_step(old(self)@, observed, true, r, final(self)@) || standalone_step(
                old(self)@,
                observed,
                false,
                r,
                final(self)@,
            ),
    {
        let settled = match &self.mode {
            ReleaseMode::Standalone { settling: Some(candidate), .. } => {
                crate::host::age_millis(&candidate.first_observed_at) >= SUCCESSOR_SETTLE_MILLIS
            },
            _ => false,
        };
        self.apply_standalone_observation(observed, settled)
    }

    /// Arms a same-release successor launched from `current_executable`, primarily for
    /// deterministic recovery tests.
    pub fn arm_current_relaunch(&mut self, current_executable: &str)
        ensures
            final(self)@.mode == old(self)@.mode,
            final(self)@.successor_gate == old(self)@.successor_gate,
            final(self)@.successor == Some(
                match old(self)@.mode {
                    ModeView::Standalone { .. } => TargetView {
                        executable: current_executable@,
                        channel: None,
                        generation: None,
                    },
                    ModeView::Managed { channel, incumbent, .. } => TargetView {
                        executable: current_executable@,
                        channel: Some(channel),
                        generation: Some(incumbent),
                    },
                },
            ),
    {
        let target = match &self.mode {
            ReleaseMode::Standalone { .. } => SuccessorTarget {
                executable: owned(current_executable),
                channel: None,
                generation: None,
            },
            ReleaseMode::Managed { channel, incumbent, .. } => SuccessorTarget {
                executable: owned(current_executable),
                channel: Some(channel.clone()),
                generation: Some(incumbent.duplicate()),
            },
        };
        self.successor = Some(target);
    }

    /// Takes the private readiness gate through which this host, as a successor, is admitted.
    pub fn take_successor_gate(&mut self) -> (r: Option<String>)
        ensures
            opt_text(r) == old(self)@.successor_gate,
            final(self)@.successor_gate is None,
            final(self)@.mode == old(self)@.mode,
            final(self)@.successor == old(self)@.successor,
    {
        let gate = self.successor_gate.take();
        gate
    }

    /// Plans a handoff: `None` when no successor is armed, so the incumbent retains the
    /// session; otherwise the successor to launch, after checking the snapshot variable name,
    /// the timeout, and that a managed successor has both its channel and generation.
    pub fn handoff_plan(&self, snapshot_env: &str, timeout_nanos: u128) -> (r: Result<Option<&SuccessorTarget>, ReleaseError>)
        ensures
            match self@.successor {
                None => r == Ok::<Option<&SuccessorTarget>, ReleaseError>(None),
                Some(t) => if !is_env_name(snapshot_env@) {
                    r == Err::<Option<&SuccessorTarget>, ReleaseError>(ReleaseError::InvalidEnvironmentName)
                } else if timeout_nanos == 0 {
                    r == Err::<Option<&SuccessorTarget>, ReleaseError>(ReleaseError::ZeroHandoffTimeout)
                } else if t.channel is Some != t.generation is Some {
                    r == Err::<Option<&SuccessorTarget>, ReleaseError>(ReleaseError::IncompleteSuccessorTarget)
                } else {
                    r matches Ok(Some(target)) && target@ == t
                },
            },
    {
        let target = match &self.successor {
            Some(t) => t,
            None => {
                return Ok(None);
            },
        };
        if validate_env_name(snapshot_env).is_err() {
            return Err(ReleaseError::InvalidEnvironmentName);
        }
        if timeout_nanos == 0 {
            return Err(ReleaseError::ZeroHandoffTimeout);
        }
        if target.channel.is_some() != target.generation.is_some() {
            return Err(ReleaseError::IncompleteSuccessorTarget);
        }
        Ok(Some(target))
    }
}

/// A versioned release that reads the epoch it writes can follow itself: rolling back to or
/// forward onto the same contract never needs a migration.
pub proof fn lemma_versioned_reads_own_writes(readable: BTreeSet<u64>, writable: u64)
    requires
        readable@.contains(writable),
    ensures
        state_accepts(
            StateCompatibility::Versioned { readable, writable },
            StateCompatibility::Versioned { readable, writable },
        ),
{
}

/// Stateless and versioned releases never follow one another.
pub proof fn lemma_stateless_and_versioned_never_mix(s: StateCompatibility)
    requires
        s is Versioned,
    ensures
        !state_accepts(StateCompatibility::Stateless, s),
        !state_accepts(s, StateCompatibility::Stateless),
{
}

/// Every SHA-256 digest renders to a valid release identity.
pub proof fn lemma_digest_renders_release_id(digest: Seq<u8>)
    requires
        digest.len() == 32,
    ensures
        is_release_id(lower_hex(digest)),
{
    lemma_lower_hex_shape(digest);
}

/// A standalone replacement is handed the session only once the same fingerprint was already
/// pending and has settled, and the successor armed then is the executable itself with no
/// channel or generation.
pub proof fn lemma_standalone_ready_needs_settled_replacement(
    rt: RuntimeView,
    observed: Option<BinaryFingerprint>,
    settled: bool,
    next: RuntimeView,
)
    requires
        standalone_step(rt, observed, settled, ReleaseObservation::SuccessorReady, next),
    ensures
        settled,
        rt.mode matches ModeView::Standalone { executable, incumbent, settling } && observed is Some && settling
            == observed && observed != Some(incumbent) && next.successor == Some(
            TargetView { executable, channel: None, generation: None },
        ),
{
}

/// Observing the incumbent executable disarms any successor and forgets any pending replacement.
pub proof fn lemma_observing_incumbent_disarms(rt: RuntimeView, observed: Option<BinaryFingerprint>, settled: bool, next: RuntimeView)
    requires
        standalone_step(rt, observed, settled, ReleaseObservation::Incumbent, next),
    ensures
        next.successor is None,
        next.mode matches ModeView::Standalone { settling, .. } && settling is None,
{
}

/// A managed successor is ready only for the selected generation, and only after its executable
/// hashed to the recorded digest or when that generation was already armed.
pub proof fn lemma_managed_ready_is_verified(
    rt: RuntimeView,
    release: ManifestView,
    executable: Option<Seq<u8>>,
    next: RuntimeView,
)
    requires
        managed_step(rt, release, executable, Ok(ReleaseObservation::SuccessorReady), next),
    ensures
        next.successor matches Some(t) && t.generation == Some(release.generation),
        (rt.successor matches Some(t) && t.generation == Some(release.generation)) || (executable matches Some(bytes)
            && lower_hex(sha256_digest(bytes)) == release.binary_sha256),
{
}

} // verus!
