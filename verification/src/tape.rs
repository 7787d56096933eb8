//! Tapes: run metadata, an ordered list of events, a Merkle root over the
//! event hashes and an optional Ed25519 signature.

use vstd::prelude::*;
use vstd::utf8::encode_utf8;

use crate::crypto::{
    blake3_digest, blake3_hash, ed25519_accepts, ed25519_generate_secret, ed25519_public_key,
    ed25519_public_key_of, ed25519_sign, ed25519_signature, ed25519_verify, hex_bytes,
    hex_decode, hex_encode, hex_text, hex_value, hex_digit, is_hex, is_lower_hex, lemma_hex_text_shape,
};
use crate::event::{content_hash, event_record, hash_matches, string_views, Event, EventData, EventKind};
use crate::label::{copy_labels, extend_labels, has_label, label_set, label_views, sorted_labels, Label};
use crate::json::{
    data_of, items_data, json_text, lemma_items_data, lemma_members_data, members_data,
    to_json_text, JsonData, JsonValue,
};
use crate::text::{decimal, owned, push_decimal, push_str, text_eq};
use crate::lineage::{ancestor, ancestor_marks, lemma_ancestor_in_range};

verus! {

broadcast use vstd::std_specs::vec::group_vec_axioms, vstd::array::group_array_axioms;

/// The tape format version this library writes and accepts.
pub const FORMAT_VERSION: &'static str = "0.1";

/// The format version as text.
pub open spec fn format_version() -> Seq<char> {
    "0.1"@
}

/// Why a tape is rejected.
#[derive(Debug)]
pub enum TapeError {
    /// The tape declares a format other than `0.1`.
    UnsupportedVersion(String),
    /// A stored hash differs from the one computed from the content.
    Integrity { expected: String, actual: String },
    /// The signature does not verify.
    InvalidSignature,
    /// An assertion is not of a supported form.
    InvalidAssertion(String),
}

/// Identity and provenance of a run.
#[derive(Debug, Clone)]
pub struct TapeMetadata {
    pub run_id: String,
    pub created_at: String,
    pub command: Option<String>,
    pub platform: String,
    pub mode: String,
    pub content_policy: String,
    pub source_run_id: Option<String>,
    pub fork_at: Option<u64>,
}

pub struct MetadataData {
    pub run_id: Seq<char>,
    pub created_at: Seq<char>,
    pub command: Option<Seq<char>>,
    pub platform: Seq<char>,
    pub mode: Seq<char>,
    pub content_policy: Seq<char>,
    pub source_run_id: Option<Seq<char>>,
    pub fork_at: Option<u64>,
}

pub open spec fn opt_view(o: Option<String>) -> Option<Seq<char>> {
    match o {
        Some(s) => Some(s@),
        None => None,
    }
}

impl View for TapeMetadata {
    type V = MetadataData;

    open spec fn view(&self) -> MetadataData {
        MetadataData {
            run_id: self.run_id@,
            created_at: self.created_at@,
            command: opt_view(self.command),
            platform: self.platform@,
            mode: self.mode@,
            content_policy: self.content_policy@,
            source_run_id: opt_view(self.source_run_id),
            fork_at: self.fork_at,
        }
    }
}

/// An Ed25519 public key and signature, both as hex text.
#[derive(Debug, Clone)]
pub struct TapeSignature {
    pub public_key: String,
    pub signature: String,
}

/// A recorded run.
#[derive(Debug)]
pub struct Tape {
    pub format: String,
    pub metadata: TapeMetadata,
    pub events: Vec<Event>,
    pub merkle_root: String,
    pub signature: Option<TapeSignature>,
}

pub struct TapeData {
    pub format: Seq<char>,
    pub metadata: MetadataData,
    pub events: Seq<EventData>,
    pub merkle_root: Seq<char>,
    pub signature: Option<(Seq<char>, Seq<char>)>,
}

pub open spec fn event_views(s: Seq<Event>) -> Seq<EventData> {
    s.map_values(|e: Event| e@)
}

pub open spec fn signature_view(s: Option<TapeSignature>) -> Option<(Seq<char>, Seq<char>)> {
    match s {
        Some(t) => Some((t.public_key@, t.signature@)),
        None => None,
    }
}

impl View for Tape {
    type V = TapeData;

    open spec fn view(&self) -> TapeData {
        TapeData {
            format: self.format@,
            metadata: self.metadata@,
            events: event_views(self.events@),
            merkle_root: self.merkle_root@,
            signature: signature_view(self.signature),
        }
    }
}

// ---------------------------------------------------------------------------
// Merkle root
// ---------------------------------------------------------------------------

pub open spec fn event_hashes(events: Seq<EventData>) -> Seq<Seq<char>> {
    events.map_values(|e: EventData| e.hash)
}

/// The leaf for an event hash: the digest of the hash's text.
pub open spec fn merkle_leaves(hashes: Seq<Seq<char>>) -> Seq<Seq<u8>> {
    hashes.map_values(|h: Seq<char>| blake3_digest(encode_utf8(h)))
}

/// The parent of nodes `2i` and `2i + 1`; a last node without a partner is
/// paired with itself.
pub open spec fn merkle_parent(level: Seq<Seq<u8>>, i: int) -> Seq<u8> {
    blake3_digest(
        level[2 * i] + if 2 * i + 1 < level.len() {
            level[2 * i + 1]
        } else {
            level[2 * i]
        },
    )
}

pub open spec fn merkle_up(level: Seq<Seq<u8>>) -> Seq<Seq<u8>> {
    Seq::new(((level.len() + 1) / 2) as nat, |i: int| merkle_parent(level, i))
}

pub open spec fn merkle_top(level: Seq<Seq<u8>>) -> Seq<u8>
    decreases level.len(),
{
    if level.len() <= 1 {
        level[0]
    } else {
        merkle_top(merkle_up(level))
    }
}

/// The Merkle root (hex text) of a list of event hashes.
pub open spec fn merkle_root_text(hashes: Seq<Seq<char>>) -> Seq<char> {
    if hashes.len() == 0 {
        hex_text(blake3_digest(encode_utf8("causa:empty"@)))
    } else {
        hex_text(merkle_top(merkle_leaves(hashes)))
    }
}

/// The bytes of a string.
fn bytes_of(s: &str) -> (b: Vec<u8>)
    ensures
        b@ == encode_utf8(s@),
{
    let bytes = s.as_bytes();
    let mut b: Vec<u8> = Vec::new();
    let mut i: usize = 0;
    while i < bytes.len()
        invariant
            i <= bytes@.len(),
            b@ == bytes@.take(i as int),
        decreases bytes@.len() - i,
    {
        b.push(bytes[i]);
        i = i + 1;
        assert(b@ =~= bytes@.take(i as int));
    }
    assert(bytes@.take(bytes@.len() as int) =~= bytes@);
    b
}

fn concat_bytes(a: &Vec<u8>, b: &Vec<u8>) -> (r: Vec<u8>)
    ensures
        r@ == a@ + b@,
{
    let mut r: Vec<u8> = Vec::new();
    let mut i: usize = 0;
    while i < a.len()
        invariant
            i <= a@.len(),
            r@ == a@.take(i as int),
        decreases a@.len() - i,
    {
        r.push(a[i]);
        i = i + 1;
        assert(r@ =~= a@.take(i as int));
    }
    let mut j: usize = 0;
    while j < b.len()
        invariant
            j <= b@.len(),
            r@ == a@ + b@.take(j as int),
        decreases b@.len() - j,
    {
        r.push(b[j]);
        j = j + 1;
        assert(r@ =~= a@ + b@.take(j as int));
    }
    assert(a@.take(a@.len() as int) =~= a@);
    assert(b@.take(b@.len() as int) =~= b@);
    r
}

pub open spec fn byte_views(s: Seq<Vec<u8>>) -> Seq<Seq<u8>> {
    s.map_values(|v: Vec<u8>| v@)
}

/// The Merkle root of the events' hashes.
pub fn merkle_root(events: &Vec<Event>) -> (root: String)
    ensures
        root@ == merkle_root_text(event_hashes(event_views(events@))),
        root@.len() == 64,
        is_lower_hex(root@),
{
    let ghost hashes = event_hashes(event_views(events@));
    if events.len() == 0 {
        let empty = bytes_of("causa:empty");
        let digest = blake3_hash(empty.as_slice());
        proof {
            lemma_hex_text_shape(digest@);
        }
        return hex_encode(digest.as_slice());
    }
    let mut level: Vec<Vec<u8>> = Vec::new();
    let mut i: usize = 0;
    while i < events.len()
        invariant
            i <= events@.len(),
            hashes == event_hashes(event_views(events@)),
            level@.len() == i,
            forall|k: int| 0 <= k < i ==> (#[trigger] level@[k])@ == merkle_leaves(hashes)[k],
            forall|k: int| 0 <= k < i ==> (#[trigger] level@[k])@.len() == 32,
        decreases events@.len() - i,
    {
        let bytes = bytes_of(events[i].hash.as_str());
        level.push(blake3_hash(bytes.as_slice()));
        i = i + 1;
    }
    assert(byte_views(level@) =~= merkle_leaves(hashes));
    while level.len() > 1
        invariant
            level@.len() >= 1,
            hashes.len() > 0,
            merkle_top(byte_views(level@)) == merkle_top(merkle_leaves(hashes)),
            forall|k: int| 0 <= k < level@.len() ==> (#[trigger] level@[k])@.len() == 32,
        decreases level@.len(),
    {
        let ghost cur = byte_views(level@);
        let n: usize = level.len();
        let mut next: Vec<Vec<u8>> = Vec::new();
        let pairs: usize = n / 2 + n % 2;
        let mut p: usize = 0;
        while p < pairs
            invariant
                n == level@.len(),
                n > 1,
                pairs == n / 2 + n % 2,
                cur == byte_views(level@),
                p <= pairs,
                next@.len() == p,
                forall|k: int| 0 <= k < next@.len() ==> (#[trigger] next@[k])@ == merkle_parent(cur, k),
                forall|k: int| 0 <= k < next@.len() ==> (#[trigger] next@[k])@.len() == 32,
            decreases pairs - p,
        {
            let j: usize = 2 * p;
            let right: usize = if j + 1 < n { j + 1 } else { j };
            let pair = concat_bytes(&level[j], &level[right]);
            next.push(blake3_hash(pair.as_slice()));
            p = p + 1;
        }
        assert(byte_views(next@) =~= merkle_up(cur));
        level = next;
    }
    proof {
        lemma_hex_text_shape(level@[0]@);
    }
    let root = hex_encode(level[0].as_slice());
    root
}

// ---------------------------------------------------------------------------
// The signed document
// ---------------------------------------------------------------------------

pub open spec fn opt_text_data(o: Option<Seq<char>>) -> JsonData {
    match o {
        Some(s) => JsonData::Str(s),
        None => JsonData::Null,
    }
}

pub open spec fn opt_number_data(o: Option<u64>) -> JsonData {
    match o {
        Some(n) => JsonData::Number(decimal(n as nat)),
        None => JsonData::Null,
    }
}

/// Metadata as stored: its fields in key order.
pub open spec fn metadata_data(m: MetadataData) -> JsonData {
    JsonData::Object(
        seq![
            ("command"@, opt_text_data(m.command)),
            ("content_policy"@, JsonData::Str(m.content_policy)),
            ("created_at"@, JsonData::Str(m.created_at)),
            ("fork_at"@, opt_number_data(m.fork_at)),
            ("mode"@, JsonData::Str(m.mode)),
            ("platform"@, JsonData::Str(m.platform)),
            ("run_id"@, JsonData::Str(m.run_id)),
            ("source_run_id"@, opt_text_data(m.source_run_id)),
        ],
    )
}

/// The unsigned envelope that a signature covers.
pub open spec fn signing_document(t: TapeData) -> JsonData {
    JsonData::Object(
        seq![
            ("events"@, JsonData::Array(t.events.map_values(|e: EventData| event_record(e)))),
            ("format"@, JsonData::Str(t.format)),
            ("merkle_root"@, JsonData::Str(t.merkle_root)),
            ("metadata"@, metadata_data(t.metadata)),
        ],
    )
}

/// The bytes a signature covers: the compact JSON of the unsigned envelope.
pub open spec fn signing_bytes(t: TapeData) -> Seq<u8> {
    encode_utf8(json_text(signing_document(t)))
}

/// `sig` (public key and signature, in hex) verifies the tape.
pub open spec fn signature_valid(t: TapeData, sig: (Seq<char>, Seq<char>)) -> bool {
    &&& is_hex(sig.0)
    &&& hex_bytes(sig.0).len() == 32
    &&& is_hex(sig.1)
    &&& hex_bytes(sig.1).len() == 64
    &&& ed25519_accepts(hex_bytes(sig.0), signing_bytes(t), hex_bytes(sig.1))
}

/// `sig` is what signing the tape with the secret key `secret` produces.
pub open spec fn signature_by(t: TapeData, sig: (Seq<char>, Seq<char>), secret: Seq<u8>) -> bool {
    let public = ed25519_public_key(secret);
    let signature = ed25519_signature(secret, signing_bytes(t));
    &&& secret.len() == 32
    &&& public.len() == 32
    &&& signature.len() == 64
    &&& sig == (hex_text(public), hex_text(signature))
}

pub open spec fn hashes_match(events: Seq<EventData>) -> bool {
    forall|i: int| 0 <= i < events.len() ==> hash_matches(#[trigger] events[i])
}

/// Everything `verify_integrity` checks except the signature.
pub open spec fn content_intact(t: TapeData) -> bool {
    &&& t.format == format_version()
    &&& hashes_match(t.events)
    &&& t.merkle_root == merkle_root_text(event_hashes(t.events))
}

/// The tape passes `verify_integrity`.
pub open spec fn tape_intact(t: TapeData) -> bool {
    &&& content_intact(t)
    &&& (t.signature matches Some(sig) ==> signature_valid(t, sig))
}

/// The first event whose stored hash differs from its content hash.
pub open spec fn first_bad_hash(events: Seq<EventData>, i: int) -> bool {
    &&& 0 <= i < events.len()
    &&& !hash_matches(events[i])
    &&& forall|j: int| 0 <= j < i ==> hash_matches(#[trigger] events[j])
}

proof fn lemma_hex_roundtrip(b: Seq<u8>)
    ensures
        is_hex(hex_text(b)),
        hex_bytes(hex_text(b)) == b,
{
    let t = hex_text(b);
    assert forall|i: int| 0 <= i < t.len() implies 0 <= #[trigger] hex_value(t[i]) by {
        let n = if i % 2 == 0 { b[i / 2] as int / 16 } else { b[i / 2] as int % 16 };
        assert(t[i] == hex_digit(n));
        assert(0 <= n < 16);
        if n < 10 {
            assert(hex_value(hex_digit(n)) == n);
        } else {
            assert(hex_value(hex_digit(n)) == n);
        }
    }
    assert forall|i: int| 0 <= i < b.len() implies #[trigger] hex_bytes(t)[i] == b[i] by {
        let hi = b[i] as int / 16;
        let lo = b[i] as int % 16;
        assert(t[2 * i] == hex_digit(hi));
        assert(t[2 * i + 1] == hex_digit(lo));
        assert(hex_value(hex_digit(hi)) == hi);
        assert(hex_value(hex_digit(lo)) == lo);
        assert(16 * hi + lo == b[i]);
    }
    assert(hex_bytes(t) =~= b);
}

/// The first `N` bytes of `v` as an array of 32.
fn array32(v: &Vec<u8>) -> (a: [u8; 32])
    requires
        v@.len() == 32,
    ensures
        a@ == v@,
{
    let mut a: [u8; 32] = [0u8; 32];
    let mut i: usize = 0;
    while i < 32
        invariant
            i <= 32,
            v@.len() == 32,
            forall|k: int| 0 <= k < i ==> a@[k] == v@[k],
        decreases 32 - i,
    {
        a.set(i, v[i]);
        i = i + 1;
    }
    assert(a@ =~= v@);
    a
}

fn array64(v: &Vec<u8>) -> (a: [u8; 64])
    requires
        v@.len() == 64,
    ensures
        a@ == v@,
{
    let mut a: [u8; 64] = [0u8; 64];
    let mut i: usize = 0;
    while i < 64
        invariant
            i <= 64,
            v@.len() == 64,
            forall|k: int| 0 <= k < i ==> a@[k] == v@[k],
        decreases 64 - i,
    {
        a.set(i, v[i]);
        i = i + 1;
    }
    assert(a@ =~= v@);
    a
}

/// An Ed25519 secret key.
pub struct SigningKey {
    secret: [u8; 32],
}

impl View for SigningKey {
    type V = Seq<u8>;

    closed spec fn view(&self) -> Seq<u8> {
        self.secret@
    }
}

impl SigningKey {
    /// The key with the given 32 secret bytes.
    pub fn from_bytes(secret: [u8; 32]) -> (k: SigningKey)
        ensures
            k@ == secret@,
    {
        SigningKey { secret }
    }

    /// The 32 secret bytes.
    pub fn to_bytes(&self) -> (b: [u8; 32])
        ensures
            b@ == self@,
    {
        self.secret
    }
}

impl TapeMetadata {
    /// The metadata as stored.
    pub fn to_json(&self) -> (v: JsonValue)
        ensures
            v@ == metadata_data(self@),
    {
        let command = match &self.command {
            Some(c) => JsonValue::from_str(c.as_str()),
            None => JsonValue::Null,
        };
        let fork_at = match self.fork_at {
            Some(n) => JsonValue::from_u64(n),
            None => JsonValue::Null,
        };
        let source = match &self.source_run_id {
            Some(c) => JsonValue::from_str(c.as_str()),
            None => JsonValue::Null,
        };
        let mut members: Vec<(String, JsonValue)> = Vec::new();
        members.push((owned("command"), command));
        members.push((owned("content_policy"), JsonValue::from_str(self.content_policy.as_str())));
        members.push((owned("created_at"), JsonValue::from_str(self.created_at.as_str())));
        members.push((owned("fork_at"), fork_at));
        members.push((owned("mode"), JsonValue::from_str(self.mode.as_str())));
        members.push((owned("platform"), JsonValue::from_str(self.platform.as_str())));
        members.push((owned("run_id"), JsonValue::from_str(self.run_id.as_str())));
        members.push((owned("source_run_id"), source));
        proof {
            lemma_members_data(members@);
            assert(members_data(members@) =~= seq![
                ("command"@, opt_text_data(self@.command)),
                ("content_policy"@, JsonData::Str(self@.content_policy)),
                ("created_at"@, JsonData::Str(self@.created_at)),
                ("fork_at"@, opt_number_data(self@.fork_at)),
                ("mode"@, JsonData::Str(self@.mode)),
                ("platform"@, JsonData::Str(self@.platform)),
                ("run_id"@, JsonData::Str(self@.run_id)),
                ("source_run_id"@, opt_text_data(self@.source_run_id)),
            ]);
        }
        JsonValue::Object(members)
    }
}

impl Tape {
    /// A tape of `events`, in format `0.1`, with their Merkle root and no
    /// signature.
    pub fn new(metadata: TapeMetadata, events: Vec<Event>) -> (t: Tape)
        ensures
            t@.format == format_version(),
            t@.metadata == metadata@,
            t@.events == event_views(events@),
            t@.merkle_root == merkle_root_text(event_hashes(event_views(events@))),
            t@.signature is None,
    {
        let root = merkle_root(&events);
        Tape { format: owned(FORMAT_VERSION), metadata, events, merkle_root: root, signature: None }
    }

    /// The bytes a signature covers: the compact JSON of the envelope
    /// without its signature.
    pub fn signing_bytes(&self) -> (b: Vec<u8>)
        ensures
            b@ == signing_bytes(self@),
    {
        let mut records: Vec<JsonValue> = Vec::new();
        let mut i: usize = 0;
        while i < self.events.len()
            invariant
                i <= self.events@.len(),
                records@.len() == i,
                forall|k: int|
                    0 <= k < i ==> data_of(#[trigger] records@[k]) == event_record(
                        self.events@[k]@,
                    ),
            decreases self.events@.len() - i,
        {
            records.push(self.events[i].record_json());
            i = i + 1;
        }
        proof {
            lemma_items_data(records@);
            assert(items_data(records@) =~= self@.events.map_values(
                |e: EventData| event_record(e),
            ));
        }
        let mut members: Vec<(String, JsonValue)> = Vec::new();
        members.push((owned("events"), JsonValue::Array(records)));
        members.push((owned("format"), JsonValue::from_str(self.format.as_str())));
        members.push((owned("merkle_root"), JsonValue::from_str(self.merkle_root.as_str())));
        members.push((owned("metadata"), self.metadata.to_json()));
        proof {
            lemma_members_data(members@);
            assert(members_data(members@) =~= seq![
                ("events"@, JsonData::Array(self@.events.map_values(|e: EventData| event_record(e)))),
                ("format"@, JsonData::Str(self@.format)),
                ("merkle_root"@, JsonData::Str(self@.merkle_root)),
                ("metadata"@, metadata_data(self@.metadata)),
            ]);
        }
        let document = JsonValue::Object(members);
        let text = to_json_text(&document);
        bytes_of(text.as_str())
    }

    /// Checks a signature: both fields must be hex of the right length and
    /// the signature must verify over `signing_bytes`.
    pub fn verify_signature(&self, signature: &TapeSignature) -> (r: Result<(), TapeError>)
        ensures
            r is Ok <==> signature_valid(self@, (signature.public_key@, signature.signature@)),
            r matches Err(e) ==> e is InvalidSignature,
            (exists|secret: Seq<u8>|
                signature_by(self@, (signature.public_key@, signature.signature@), secret))
                ==> r is Ok,
    {
        let ghost sig = (signature.public_key@, signature.signature@);
        proof {
            if exists|secret: Seq<u8>| signature_by(self@, sig, secret) {
                let secret = choose|secret: Seq<u8>| signature_by(self@, sig, secret);
                lemma_hex_roundtrip(ed25519_public_key(secret));
                lemma_hex_roundtrip(ed25519_signature(secret, signing_bytes(self@)));
            }
        }
        let public = match hex_decode(signature.public_key.as_str()) {
            Some(p) => p,
            None => return Err(TapeError::InvalidSignature),
        };
        if public.len() != 32 {
            return Err(TapeError::InvalidSignature);
        }
        let sig_bytes = match hex_decode(signature.signature.as_str()) {
            Some(s) => s,
            None => return Err(TapeError::InvalidSignature),
        };
        if sig_bytes.len() != 64 {
            return Err(TapeError::InvalidSignature);
        }
        let public_array = array32(&public);
        let sig_array = array64(&sig_bytes);
        let message = self.signing_bytes();
        let ok = ed25519_verify(&public_array, message.as_slice(), &sig_array);
        proof {
            if exists|secret: Seq<u8>| signature_by(self@, sig, secret) {
                let secret = choose|secret: Seq<u8>| signature_by(self@, sig, secret);
                assert(sig_array@ == ed25519_signature(secret, message@));
            }
        }
        if ok {
            Ok(())
        } else {
            Err(TapeError::InvalidSignature)
        }
    }
}


/// Why a derived tape or an assertion could not be produced.
#[derive(Debug)]
pub enum CausaError {
    /// A tape check failed.
    Tape(TapeError),
    /// `fork_at` was given a step that is not on the tape.
    ForkStepOutsideTape,
    /// `override_output` was given a step that is not on the tape.
    OverrideStepOutsideTape,
    /// The tape has no events.
    EmptyTape,
}


fn copy_opt_string(o: &Option<String>) -> (r: Option<String>)
    ensures
        opt_view(r) == opt_view(*o),
{
    match o {
        Some(s) => Some(s.clone()),
        None => None,
    }
}

impl TapeMetadata {
    /// Equal metadata.
    pub fn copy(&self) -> (m: TapeMetadata)
        ensures
            m@ == self@,
    {
        TapeMetadata {
            run_id: self.run_id.clone(),
            created_at: self.created_at.clone(),
            command: copy_opt_string(&self.command),
            platform: self.platform.clone(),
            mode: self.mode.clone(),
            content_policy: self.content_policy.clone(),
            source_run_id: copy_opt_string(&self.source_run_id),
            fork_at: self.fork_at,
        }
    }
}

/// The metadata of a tape derived from one with metadata `m`: its run id
/// extended by `suffix` and the step, its mode replaced, and its lineage
/// pointing at `m`.
pub open spec fn derived_metadata(m: MetadataData, suffix: Seq<char>, mode: Seq<char>, step: u64) -> MetadataData {
    MetadataData {
        run_id: m.run_id + suffix + decimal(step as nat),
        created_at: m.created_at,
        command: m.command,
        platform: m.platform,
        mode,
        content_policy: m.content_policy,
        source_run_id: Some(m.run_id),
        fork_at: Some(step),
    }
}

pub fn derive_metadata(m: &TapeMetadata, suffix: &str, mode: &str, step: u64) -> (r: TapeMetadata)
    ensures
        r@ == derived_metadata(m@, suffix@, mode@, step),
{
    let mut run_id = m.run_id.clone();
    push_str(&mut run_id, suffix);
    push_decimal(&mut run_id, step);
    let r = TapeMetadata {
        run_id,
        created_at: m.created_at.clone(),
        command: copy_opt_string(&m.command),
        platform: m.platform.clone(),
        mode: owned(mode),
        content_policy: m.content_policy.clone(),
        source_run_id: Some(m.run_id.clone()),
        fork_at: Some(step),
    };
    assert(r@.run_id =~= m@.run_id + suffix@ + decimal(step as nat));
    r
}

/// The parent list of an event appended after `events`: the last event's
/// hash, or nothing for the first event.
pub open spec fn next_parents(events: Seq<EventData>) -> Seq<Seq<char>> {
    if events.len() == 0 {
        seq![]
    } else {
        seq![events[events.len() - 1].hash]
    }
}

fn parents_after(events: &Vec<Event>) -> (p: Vec<String>)
    ensures
        string_views(p@) == next_parents(event_views(events@)),
{
    let mut p: Vec<String> = Vec::new();
    if events.len() > 0 {
        p.push(events[events.len() - 1].hash.clone());
    }
    assert(string_views(p@) =~= next_parents(event_views(events@)));
    p
}

/// `e` is the event appended after `events` with the given content.
pub open spec fn appended_event(
    e: EventData,
    events: Seq<EventData>,
    kind: EventKind,
    name: Seq<char>,
    input: JsonData,
    output: JsonData,
    labels: Seq<(Seq<char>, Seq<char>)>,
) -> bool {
    &&& e.step == events.len() + 1
    &&& e.kind == kind
    &&& e.name == name
    &&& e.input == input
    &&& e.output == output
    &&& sorted_labels(e.labels)
    &&& forall|x: (Seq<char>, Seq<char>)| has_label(e.labels, x) <==> has_label(labels, x)
    &&& e.parents == next_parents(events)
    &&& hash_matches(e)
}

/// The index of the first event at `step`.
pub open spec fn first_at_step(events: Seq<EventData>, step: u64, i: int) -> bool {
    &&& 0 <= i < events.len()
    &&& events[i].step == step
    &&& forall|j: int| 0 <= j < i ==> (#[trigger] events[j]).step != step
}

/// The index of the first event whose hash is `h`.
pub open spec fn first_with_hash(events: Seq<EventData>, h: Seq<char>, i: int) -> bool {
    &&& 0 <= i < events.len()
    &&& events[i].hash == h
    &&& forall|j: int| 0 <= j < i ==> (#[trigger] events[j]).hash != h
}

/// The labels that `labels_for_step` gathers: those of the first event at
/// `step` and of every ancestor of it along parent hashes.
pub open spec fn step_labels(events: Seq<EventData>, step: u64, x: (Seq<char>, Seq<char>)) -> bool {
    exists|i: int, k: int|
        #![trigger first_at_step(events, step, i), ancestor(events, i, k)]
        first_at_step(events, step, i) && ancestor(events, i, k) && has_label(events[k].labels, x)
}

pub fn copy_events(events: &Vec<Event>, n: usize) -> (r: Vec<Event>)
    requires
        n <= events@.len(),
    ensures
        event_views(r@) == event_views(events@).take(n as int),
{
    let mut r: Vec<Event> = Vec::new();
    let mut i: usize = 0;
    while i < n
        invariant
            i <= n <= events@.len(),
            r@.len() == i,
            forall|k: int| 0 <= k < i ==> (#[trigger] r@[k])@ == events@[k]@,
        decreases n - i,
    {
        r.push(events[i].copy());
        i = i + 1;
    }
    assert(event_views(r@) =~= event_views(events@).take(n as int));
    r
}

impl Tape {
    /// Checks the tape: its format, every event hash, the Merkle root and,
    /// when present, the signature, failing on the first that is wrong.
    pub fn verify_integrity(&self) -> (r: Result<(), TapeError>)
        ensures
            r is Ok <==> tape_intact(self@),
            self@.format != format_version() ==> (r matches Err(TapeError::UnsupportedVersion(f))
                && f@ == self@.format),
            forall|i: int|
                self@.format == format_version() && first_bad_hash(self@.events, i) ==> (
                r matches Err(TapeError::Integrity { expected, actual }) && expected@
                    == self@.events[i].hash && actual@ == content_hash(self@.events[i])),
            self@.format == format_version() && hashes_match(self@.events) && self@.merkle_root
                != merkle_root_text(event_hashes(self@.events)) ==> (r matches Err(
                TapeError::Integrity { expected, actual },
            ) && expected@ == self@.merkle_root && actual@ == merkle_root_text(
                event_hashes(self@.events),
            )),
            content_intact(self@) && !tape_intact(self@) ==> (r matches Err(e)
                && e is InvalidSignature),
            content_intact(self@) && (self@.signature matches Some(sig) ==> exists|secret: Seq<u8>|
                signature_by(self@, sig, secret)) ==> r is Ok,
    {
        if !text_eq(self.format.as_str(), FORMAT_VERSION) {
            return Err(TapeError::UnsupportedVersion(self.format.clone()));
        }
        let mut i: usize = 0;
        while i < self.events.len()
            invariant
                i <= self.events@.len(),
                self@.format == format_version(),
                forall|j: int| 0 <= j < i ==> hash_matches(#[trigger] self@.events[j]),
            decreases self.events@.len() - i,
        {
            let actual = self.events[i].calculate_hash();
            if !text_eq(actual.as_str(), self.events[i].hash.as_str()) {
                assert(first_bad_hash(self@.events, i as int));
                assert forall|k: int| first_bad_hash(self@.events, k) implies k == i by {
                    if k < i {
                        assert(hash_matches(self@.events[k]));
                    } else if k > i {
                        assert(hash_matches(self@.events[i as int]));
                    }
                }
                return Err(TapeError::Integrity { expected: self.events[i].hash.clone(), actual });
            }
            i = i + 1;
        }
        assert(hashes_match(self@.events));
        let actual_root = merkle_root(&self.events);
        if !text_eq(actual_root.as_str(), self.merkle_root.as_str()) {
            return Err(
                TapeError::Integrity { expected: self.merkle_root.clone(), actual: actual_root },
            );
        }
        match &self.signature {
            Some(signature) => self.verify_signature(signature),
            None => Ok(()),
        }
    }

    /// Signs the tape's unsigned envelope with `signing_key` and stores the
    /// public key and signature as hex.
    pub fn sign(&mut self, signing_key: &SigningKey)
        ensures
            final(self)@.format == old(self)@.format,
            final(self)@.metadata == old(self)@.metadata,
            final(self)@.events == old(self)@.events,
            final(self)@.merkle_root == old(self)@.merkle_root,
            final(self)@.signature matches Some(sig) && signature_by(
                final(self)@,
                sig,
                signing_key@,
            ),
    {
        let message = self.signing_bytes();
        let signature = ed25519_sign(&signing_key.secret, message.as_slice());
        let public = ed25519_public_key_of(&signing_key.secret);
        self.signature = Some(
            TapeSignature {
                public_key: hex_encode(&public),
                signature: hex_encode(&signature),
            },
        );
    }

    /// A new random signing key.
    pub fn generate_signing_key() -> (k: SigningKey) {
        SigningKey { secret: ed25519_generate_secret() }
    }

    /// Appends an event after the last one (its only parent), recomputes the
    /// Merkle root, drops the signature and returns the new event's hash.
    pub fn append_event(
        &mut self,
        kind: EventKind,
        name: &str,
        input: JsonValue,
        output: JsonValue,
        labels: Vec<Label>,
    ) -> (h: String)
        requires
            old(self).events@.len() < u64::MAX,
        ensures
            final(self)@.format == old(self)@.format,
            final(self)@.metadata == old(self)@.metadata,
            final(self)@.events.len() == old(self)@.events.len() + 1,
            final(self)@.events.take(old(self)@.events.len() as int) == old(self)@.events,
            appended_event(
                final(self)@.events.last(),
                old(self)@.events,
                kind,
                name@,
                input@,
                output@,
                label_views(labels@),
            ),
            final(self)@.merkle_root == merkle_root_text(event_hashes(final(self)@.events)),
            final(self)@.signature is None,
            h@ == final(self)@.events.last().hash,
            content_intact(old(self)@) ==> tape_intact(final(self)@),
    {
        let step: u64 = self.events.len() as u64 + 1;
        let parents = parents_after(&self.events);
        let event = Event::new(step, kind, name, input, output, labels, parents);
        let h = event.hash.clone();
        self.events.push(event);
        self.merkle_root = merkle_root(&self.events);
        self.signature = None;
        proof {
            assert(self@.events =~= old(self)@.events.push(self@.events.last()));
            assert(self@.events.take(old(self)@.events.len() as int) =~= old(self)@.events);
            if content_intact(old(self)@) {
                assert(hashes_match(self@.events));
            }
        }
        h
    }

    /// A tape with the first `step` events of this one and a `Note` event
    /// recording the fork, its run id extended by `-fork-<step>` and its
    /// lineage pointing at this run.
    pub fn fork_at(&self, step: u64, note: &str) -> (r: Result<Tape, CausaError>)
        requires
            self@.events.len() < u64::MAX,
        ensures
            r is Err <==> (step == 0 || step > self@.events.len()),
            r matches Err(e) ==> e is ForkStepOutsideTape,
            r matches Ok(f) ==> {
                &&& f@.format == self@.format
                &&& f@.metadata == derived_metadata(self@.metadata, "-fork-"@, "fork"@, step)
                &&& f@.events.len() == step + 1
                &&& f@.events.take(step as int) == self@.events.take(step as int)
                &&& f@.events[step as int].step == step + 1
                &&& f@.events[step as int].kind == EventKind::Note
                &&& f@.events[step as int].name == "fork"@
                &&& f@.events[step as int].input == JsonData::Object(
                    seq![
                        ("at"@, JsonData::Number(decimal(step as nat))),
                        ("source_run_id"@, JsonData::Str(self@.metadata.run_id)),
                    ],
                )
                &&& f@.events[step as int].output == JsonData::Object(
                    seq![("note"@, JsonData::Str(note@))],
                )
                &&& f@.events[step as int].labels == Seq::<(Seq<char>, Seq<char>)>::empty()
                &&& f@.events[step as int].parents == seq![self@.events[step - 1].hash]
                &&& hash_matches(f@.events[step as int])
                &&& f@.merkle_root == merkle_root_text(event_hashes(f@.events))
                &&& f@.signature is None
                &&& content_intact(self@) ==> tape_intact(f@)
            },
    {
        if step == 0 || step > self.events.len() as u64 {
            return Err(CausaError::ForkStepOutsideTape);
        }
        let metadata = derive_metadata(&self.metadata, "-fork-", "fork", step);
        let mut events = copy_events(&self.events, step as usize);
        let parent = self.events[(step - 1) as usize].hash.clone();
        let mut parents: Vec<String> = Vec::new();
        parents.push(parent);
        let mut input_members: Vec<(String, JsonValue)> = Vec::new();
        input_members.push((owned("at"), JsonValue::from_u64(step)));
        input_members.push((owned("source_run_id"), JsonValue::from_str(self.metadata.run_id.as_str())));
        let mut output_members: Vec<(String, JsonValue)> = Vec::new();
        output_members.push((owned("note"), JsonValue::from_str(note)));
        proof {
            lemma_members_data(input_members@);
            lemma_members_data(output_members@);
            assert(members_data(input_members@) =~= seq![
                ("at"@, JsonData::Number(decimal(step as nat))),
                ("source_run_id"@, JsonData::Str(self@.metadata.run_id)),
            ]);
            assert(members_data(output_members@) =~= seq![("note"@, JsonData::Str(note@))]);
            assert(string_views(parents@) =~= seq![self@.events[step - 1].hash]);
        }
        let labels: Vec<Label> = Vec::new();
        let event = Event::new(
            step + 1,
            EventKind::Note,
            "fork",
            JsonValue::Object(input_members),
            JsonValue::Object(output_members),
            labels,
            parents,
        );
        proof {
            assert(!has_label(event@.labels, (seq![], seq![])) ==> true);
            if event@.labels.len() > 0 {
                assert(has_label(event@.labels, event@.labels[0]));
                assert(!has_label(label_views(labels@), event@.labels[0]));
            }
            assert(event@.labels =~= Seq::<(Seq<char>, Seq<char>)>::empty());
        }
        let ghost before = events@;
        assert(event_views(before).len() == before.len());
        assert(event_views(before).len() == step);
        events.push(event);
        proof {
            assert(events@.len() == step + 1);
            assert forall|i: int| 0 <= i < step implies #[trigger] events@[i] == before[i] by {}
            assert(event_views(events@).take(step as int) =~= event_views(self.events@).take(
                step as int,
            )) by {
                assert(event_views(before).len() == step);
            }
        }
        let root = merkle_root(&events);
        let fork = Tape {
            format: self.format.clone(),
            metadata,
            events,
            merkle_root: root,
            signature: None,
        };
        proof {
            assert(fork@.events.take(step as int) =~= self@.events.take(step as int));
            if content_intact(self@) {
                assert forall|i: int| 0 <= i < fork@.events.len() implies hash_matches(
                    #[trigger] fork@.events[i],
                ) by {
                    if i < step {
                        assert(fork@.events[i] == fork@.events.take(step as int)[i]);
                        assert(self@.events.take(step as int)[i] == self@.events[i]);
                    }
                }
            }
        }
        Ok(fork)
    }

    /// The first event at `step`, if any.
    pub fn event_by_step(&self, step: u64) -> (r: Option<&Event>)
        ensures
            r is None <==> forall|i: int| 0 <= i < self@.events.len() ==> (
            #[trigger] self@.events[i]).step != step,
            r matches Some(e) ==> exists|i: int|
                first_at_step(self@.events, step, i) && e@ == self@.events[i],
    {
        let mut i: usize = 0;
        while i < self.events.len()
            invariant
                i <= self.events@.len(),
                forall|j: int| 0 <= j < i ==> (#[trigger] self@.events[j]).step != step,
            decreases self.events@.len() - i,
        {
            if self.events[i].step == step {
                assert(first_at_step(self@.events, step, i as int));
                return Some(&self.events[i]);
            }
            i = i + 1;
        }
        None
    }
}


/// `d` is event `s` of the source re-recorded after `prior` with the output
/// of the event at `step` replaced by `output`.
pub open spec fn overridden_event(
    d: EventData,
    s: EventData,
    prior: Seq<EventData>,
    step: u64,
    output: JsonData,
) -> bool {
    &&& d.step == s.step
    &&& d.kind == s.kind
    &&& d.name == s.name
    &&& d.input == s.input
    &&& d.output == (if s.step == step {
        output
    } else {
        s.output
    })
    &&& sorted_labels(d.labels)
    &&& forall|x: (Seq<char>, Seq<char>)| has_label(d.labels, x) <==> has_label(s.labels, x)
    &&& d.parents == next_parents(prior)
    &&& hash_matches(d)
}

proof fn lemma_first_at_step_unique(events: Seq<EventData>, step: u64, i: int, j: int)
    requires
        first_at_step(events, step, i),
        first_at_step(events, step, j),
    ensures
        i == j,
{
}

impl Tape {
    /// A tape that re-records every event of this one, each following the
    /// one before it, with the output of the event at `step` replaced by
    /// `output`; its run id is extended by `-replay-<step>` and its lineage
    /// points at this run.
    pub fn override_output(&self, step: u64, output: JsonValue) -> (r: Result<Tape, CausaError>)
        ensures
            r is Err <==> (step == 0 || step > self@.events.len()),
            r matches Err(e) ==> e is OverrideStepOutsideTape,
            r matches Ok(f) ==> {
                &&& f@.format == self@.format
                &&& f@.metadata == derived_metadata(
                    self@.metadata,
                    "-replay-"@,
                    "replay-override"@,
                    step,
                )
                &&& f@.events.len() == self@.events.len()
                &&& forall|i: int|
                    0 <= i < self@.events.len() ==> overridden_event(
                        #[trigger] f@.events[i],
                        self@.events[i],
                        f@.events.take(i),
                        step,
                        output@,
                    )
                &&& f@.merkle_root == merkle_root_text(event_hashes(f@.events))
                &&& f@.signature is None
                &&& self@.format == format_version() ==> tape_intact(f@)
                &&& f@.events.len() > 0 ==> f@.events[0].parents.len() == 0
                &&& forall|i: int|
                    0 < i < f@.events.len() ==> (#[trigger] f@.events[i]).parents == seq![
                        f@.events[i - 1].hash,
                    ]
            },
    {
        if step == 0 || step > self.events.len() as u64 {
            return Err(CausaError::OverrideStepOutsideTape);
        }
        let metadata = derive_metadata(&self.metadata, "-replay-", "replay-override", step);
        let mut events: Vec<Event> = Vec::new();
        let mut i: usize = 0;
        while i < self.events.len()
            invariant
                i <= self.events@.len(),
                events@.len() == i,
                forall|k: int|
                    0 <= k < i ==> overridden_event(
                        #[trigger] event_views(events@)[k],
                        self@.events[k],
                        event_views(events@).take(k),
                        step,
                        output@,
                    ),
            decreases self.events@.len() - i,
        {
            let source = &self.events[i];
            let parents = parents_after(&events);
            let out = if source.step == step {
                output.copy()
            } else {
                source.output.copy()
            };
            let e = Event::new(
                source.step,
                source.kind,
                source.name.as_str(),
                source.input.copy(),
                out,
                copy_labels(&source.labels),
                parents,
            );
            let ghost before = events@;
            events.push(e);
            proof {
                assert(event_views(events@).take(i as int) =~= event_views(before));
                assert forall|k: int| 0 <= k < i + 1 implies overridden_event(
                    #[trigger] event_views(events@)[k],
                    self@.events[k],
                    event_views(events@).take(k),
                    step,
                    output@,
                ) by {
                    if k < i {
                        assert(event_views(events@)[k] == event_views(before)[k]);
                        assert(event_views(events@).take(k) =~= event_views(before).take(k));
                    }
                }
            }
            i = i + 1;
        }
        proof {
            crate::laws::law_override_rechains(self@.events, event_views(events@), step, output@);
        }
        let root = merkle_root(&events);
        let derived = Tape {
            format: self.format.clone(),
            metadata,
            events,
            merkle_root: root,
            signature: None,
        };
        Ok(derived)
    }

    /// The labels of the first event at `step` together with those of
    /// every event it descends from through parent hashes.
    pub fn labels_for_step(&self, step: u64) -> (r: Vec<Label>)
        ensures
            sorted_labels(label_views(r@)),
            forall|x: (Seq<char>, Seq<char>)|
                has_label(label_views(r@), x) <==> step_labels(self@.events, step, x),
    {
        let ghost events = self@.events;
        let n: usize = self.events.len();
        let mut r: Vec<Label> = Vec::new();
        assert(label_views(r@) =~= Seq::<(Seq<char>, Seq<char>)>::empty());
        let mut i: usize = 0;
        while i < n && self.events[i].step != step
            invariant
                n == events.len(),
                events == self@.events,
                i <= n,
                forall|j: int| 0 <= j < i ==> (#[trigger] events[j]).step != step,
            decreases n - i,
        {
            i = i + 1;
        }
        if i == n {
            assert forall|x: (Seq<char>, Seq<char>)|
                has_label(label_views(r@), x) <==> step_labels(events, step, x) by {
                if step_labels(events, step, x) {
                    let (a, k) = choose|a: int, k: int|
                        first_at_step(events, step, a) && ancestor(events, a, k) && has_label(
                            events[k].labels,
                            x,
                        );
                    assert(events[a].step == step);
                }
            }
            return r;
        }
        assert(first_at_step(events, step, i as int));
        let marks = ancestor_marks(&self.events, i);
        let mut k: usize = 0;
        while k < n
            invariant
                n == events.len(),
                events == self@.events,
                i < n,
                first_at_step(events, step, i as int),
                marks@.len() == n,
                forall|m: int| 0 <= m < n ==> (#[trigger] marks@[m] <==> ancestor(events, i as int, m)),
                k <= n,
                sorted_labels(label_views(r@)),
                forall|x: (Seq<char>, Seq<char>)|
                    has_label(label_views(r@), x) <==> exists|m: int|
                        0 <= m < k && #[trigger] marks@[m] && has_label(events[m].labels, x),
            decreases n - k,
        {
            if marks[k] {
                extend_labels(&mut r, &self.events[k].labels);
                proof {
                    assert forall|x: (Seq<char>, Seq<char>)|
                        has_label(label_views(r@), x) <==> exists|m: int|
                            0 <= m < k + 1 && #[trigger] marks@[m] && has_label(events[m].labels, x) by {
                        if has_label(events[k as int].labels, x) {
                            assert(marks@[k as int]);
                        }
                    }
                }
            } else {
                proof {
                    assert forall|x: (Seq<char>, Seq<char>)|
                        has_label(label_views(r@), x) <==> exists|m: int|
                            0 <= m < k + 1 && #[trigger] marks@[m] && has_label(events[m].labels, x) by {
                        if exists|m: int| 0 <= m < k + 1 && #[trigger] marks@[m] && has_label(events[m].labels, x) {
                            let m = choose|m: int| 0 <= m < k + 1 && #[trigger] marks@[m] && has_label(events[m].labels, x);
                            assert(m != k);
                        }
                    }
                }
            }
            k = k + 1;
        }
        proof {
            assert forall|x: (Seq<char>, Seq<char>)|
                has_label(label_views(r@), x) <==> step_labels(events, step, x) by {
                if step_labels(events, step, x) {
                    let (a, m) = choose|a: int, m: int|
                        first_at_step(events, step, a) && ancestor(events, a, m) && has_label(
                            events[m].labels,
                            x,
                        );
                    lemma_first_at_step_unique(events, step, i as int, a);
                    lemma_ancestor_in_range(events, i as int, m);
                    assert(marks@[m]);
                }
                if has_label(label_views(r@), x) {
                    let m = choose|m: int| 0 <= m < n && #[trigger] marks@[m] && has_label(events[m].labels, x);
                    assert(ancestor(events, i as int, m));
                }
            }
        }
        r
    }
}

/// A tape under construction: metadata and the events pushed so far.
pub struct TapeBuilder {
    metadata: TapeMetadata,
    events: Vec<Event>,
}

impl View for TapeBuilder {
    type V = (MetadataData, Seq<EventData>);

    closed spec fn view(&self) -> (MetadataData, Seq<EventData>) {
        (self.metadata@, event_views(self.events@))
    }
}

impl TapeBuilder {
    /// A builder with no events.
    pub fn new(metadata: TapeMetadata) -> (b: TapeBuilder)
        ensures
            b@.0 == metadata@,
            b@.1 == Seq::<EventData>::empty(),
    {
        let b = TapeBuilder { metadata, events: Vec::new() };
        assert(b@.1 =~= Seq::<EventData>::empty());
        b
    }

    /// Appends an event after the last one (its only parent) and returns its
    /// hash.
    pub fn push(
        &mut self,
        kind: EventKind,
        name: &str,
        input: JsonValue,
        output: JsonValue,
        labels: Vec<Label>,
    ) -> (h: String)
        requires
            old(self)@.1.len() < u64::MAX,
        ensures
            final(self)@.0 == old(self)@.0,
            final(self)@.1.len() == old(self)@.1.len() + 1,
            final(self)@.1.take(old(self)@.1.len() as int) == old(self)@.1,
            appended_event(
                final(self)@.1.last(),
                old(self)@.1,
                kind,
                name@,
                input@,
                output@,
                label_views(labels@),
            ),
            h@ == final(self)@.1.last().hash,
    {
        let step: u64 = self.events.len() as u64 + 1;
        let parents = parents_after(&self.events);
        let event = Event::new(step, kind, name, input, output, labels, parents);
        let h = event.hash.clone();
        self.events.push(event);
        proof {
            assert(self@.1 =~= old(self)@.1.push(self@.1.last()));
            assert(self@.1.take(old(self)@.1.len() as int) =~= old(self)@.1);
        }
        h
    }

    /// The tape of the pushed events.
    pub fn finish(self) -> (t: Tape)
        ensures
            t@.format == format_version(),
            t@.metadata == self@.0,
            t@.events == self@.1,
            t@.merkle_root == merkle_root_text(event_hashes(self@.1)),
            t@.signature is None,
    {
        Tape::new(self.metadata, self.events)
    }
}


/// An equal signature.
pub fn copy_signature(s: &Option<TapeSignature>) -> (r: Option<TapeSignature>)
    ensures
        signature_view(r) == signature_view(*s),
{
    match s {
        Some(t) => Some(
            TapeSignature { public_key: t.public_key.clone(), signature: t.signature.clone() },
        ),
        None => None,
    }
}


/// What one event of a built tape holds: kind, name, input, output, labels.
pub type EventContent = (EventKind, Seq<char>, JsonData, JsonData, Seq<(Seq<char>, Seq<char>)>);

/// `events` are the events that pushing `contents` one after another onto
/// an empty builder produces.
pub open spec fn built_from(events: Seq<EventData>, contents: Seq<EventContent>) -> bool {
    &&& events.len() == contents.len()
    &&& forall|i: int|
        0 <= i < events.len() ==> appended_event(
            #[trigger] events[i],
            events.take(i),
            contents[i].0,
            contents[i].1,
            contents[i].2,
            contents[i].3,
            contents[i].4,
        )
}

/// Extending a built event list by one more pushed event.
pub proof fn lemma_built_from_push(
    before: Seq<EventData>,
    after: Seq<EventData>,
    contents: Seq<EventContent>,
    c: EventContent,
)
    requires
        built_from(before, contents),
        after.len() == before.len() + 1,
        after.take(before.len() as int) == before,
        appended_event(after.last(), before, c.0, c.1, c.2, c.3, c.4),
    ensures
        built_from(after, contents.push(c)),
{
    assert forall|i: int| 0 <= i < after.len() implies appended_event(
        #[trigger] after[i],
        after.take(i),
        contents.push(c)[i].0,
        contents.push(c)[i].1,
        contents.push(c)[i].2,
        contents.push(c)[i].3,
        contents.push(c)[i].4,
    ) by {
        if i < before.len() {
            assert(after[i] == before[i]);
            assert(after.take(i) =~= before.take(i));
        } else {
            assert(after.take(i) =~= before);
        }
    }
}

} // verus!
