//! The request driver: classification of inbound requests and the state
//! machine that decides every step of an Advance notarization.
//!
//! The machine owns all decisions; the unverified shell only performs the
//! outside calls an [`Action`] names and feeds each outcome back as an
//! [`Event`]. A handler failure yields status `Reject` for the current
//! request and the loop polls on — a deliberate hardening over treating
//! every failure as fatal to the process.

use vstd::prelude::*;
use crate::address::{address_ok, cid_hash_code, verify_address, MANDATED_HASH_CODE};
use crate::encoding::{hex_framed, hex_frame, is_ascii_seq, is_hex_seq, hex_decoded, copy_range};
use crate::errors::{PipelineError, Status};
use crate::hashing::{keccak256, keccak256_of, seed_from_payload, seed_of};
use crate::manifest::{
    cbor_encode_manifest, cbor_manifest_bytes, covers_prefix, entries_view, lemma_bytes_deep_view,
    no_dup, order_blocks, ordered_blocks, ManifestEntry,
};
use crate::notice::{abi_encode_notice, abi_notice_encoding};

verus! {

/// The two request kinds the coordination server issues, and the marker
/// for anything else.
#[derive(Clone, Copy, Debug, PartialEq, Eq, Structural)]
pub enum RequestKind {
    Advance,
    Inspect,
    Unknown,
}

/// The wire tag of an Advance request: the bytes of `advance_state`.
pub open spec fn advance_tag() -> Seq<u8> {
    seq![97u8, 100u8, 118u8, 97u8, 110u8, 99u8, 101u8, 95u8, 115u8, 116u8, 97u8, 116u8, 101u8]
}

/// The wire tag of an Inspect request: the bytes of `inspect_state`.
pub open spec fn inspect_tag() -> Seq<u8> {
    seq![105u8, 110u8, 115u8, 112u8, 101u8, 99u8, 116u8, 95u8, 115u8, 116u8, 97u8, 116u8, 101u8]
}

/// The bytes of the Advance wire tag.
fn advance_tag_bytes() -> (r: Vec<u8>)
    ensures
        r@ == advance_tag(),
{
    let r: Vec<u8> = vec![97, 100, 118, 97, 110, 99, 101, 95, 115, 116, 97, 116, 101];
    proof {
        assert(r@ =~= advance_tag());
    }
    r
}

/// The bytes of the Inspect wire tag.
fn inspect_tag_bytes() -> (r: Vec<u8>)
    ensures
        r@ == inspect_tag(),
{
    let r: Vec<u8> = vec![105, 110, 115, 112, 101, 99, 116, 95, 115, 116, 97, 116, 101];
    proof {
        assert(r@ =~= inspect_tag());
    }
    r
}

/// What the shell reports back after performing an action.
pub enum Event {
    /// The synthesizer produced the artifact bytes.
    Artifact(Vec<u8>),
    /// The store returned the address of the bytes just published.
    Published(Vec<u8>),
    /// The store enumerated the addresses reachable from the root.
    Blocks(Vec<Vec<u8>>),
    /// The shell derived the metadata document for the artifact.
    MetadataDoc(Vec<u8>),
    /// The store returned the raw bytes of the block just fetched.
    BlockData(Vec<u8>),
    /// The emission or report was delivered.
    Delivered,
    /// The outside call failed.
    Failed,
}

/// The one outside call the shell must perform next.
pub enum Action {
    /// Run the artifact synthesizer with this seed.
    Synthesize(u64),
    /// Publish these bytes to the content store.
    Publish(Vec<u8>),
    /// Enumerate every address reachable from this root address.
    Enumerate(Vec<u8>),
    /// Derive the metadata document for the artifact at this address.
    DeriveMetadata(Vec<u8>),
    /// Fetch the raw bytes of this address.
    Fetch(Vec<u8>),
    /// Surface this framed payload through the side channel.
    EmitGio(Vec<u8>),
    /// Send this framed payload as the notice.
    EmitNotice(Vec<u8>),
    /// The request is handled; report this status.
    Finish(Status),
    /// The request is aborted; report `Reject` with this diagnostic.
    Fail(PipelineError),
}

/// The notarization pipeline between two outside calls.
pub enum Machine {
    /// Waiting for the synthesizer.
    AwaitArtifact,
    /// Waiting for the store address of the published artifact.
    AwaitArtifactAddress,
    /// Waiting for the block enumeration of the artifact's graph.
    AwaitBlockRefs { root: Vec<u8> },
    /// Waiting for the derived metadata document.
    AwaitMetadataDoc { root: Vec<u8>, blocks: Vec<Vec<u8>> },
    /// Waiting for the store address of the published metadata.
    AwaitMetadataAddress { root: Vec<u8>, blocks: Vec<Vec<u8>> },
    /// Waiting for the bytes of block `next`, whose address is verified.
    AwaitBlockData {
        root: Vec<u8>,
        blocks: Vec<Vec<u8>>,
        metadata_address: Vec<u8>,
        next: usize,
        entries: Vec<ManifestEntry>,
    },
    /// Waiting for the side-channel delivery of block `next`'s bytes.
    AwaitBlockAck {
        root: Vec<u8>,
        blocks: Vec<Vec<u8>>,
        metadata_address: Vec<u8>,
        next: usize,
        entries: Vec<ManifestEntry>,
    },
    /// Waiting for the side-channel delivery of the encoded manifest.
    AwaitManifestAck {
        root: Vec<u8>,
        blocks: Vec<Vec<u8>>,
        metadata_address: Vec<u8>,
        entries: Vec<ManifestEntry>,
        manifest_digest: Vec<u8>,
    },
    /// Waiting for the notice delivery.
    AwaitNoticeAck,
    /// The request is handled; nothing further is performed.
    Done { status: Status },
}

/// The walked block list is rooted, duplicate-free and nonempty.
pub open spec fn blocks_wf(root: Seq<u8>, blocks: Seq<Seq<u8>>) -> bool {
    &&& blocks.len() >= 1
    &&& blocks[0] == root
    &&& no_dup(blocks)
}

/// A usable metadata address: ASCII and short enough for the notice layer.
pub open spec fn maddr_wf(maddr: Seq<u8>) -> bool {
    &&& is_ascii_seq(maddr)
    &&& maddr.len() <= 0xFFFFFF00
}

impl Machine {
    /// The internal invariant every reachable machine satisfies.
    pub open spec fn wf(self) -> bool {
        match self {
            Machine::AwaitMetadataDoc { root, blocks } => blocks_wf(root@, blocks.deep_view()),
            Machine::AwaitMetadataAddress { root, blocks } => blocks_wf(root@, blocks.deep_view()),
            Machine::AwaitBlockData { root, blocks, metadata_address, next, entries } => {
                &&& blocks_wf(root@, blocks.deep_view())
                &&& maddr_wf(metadata_address@)
                &&& (next as int) < blocks.deep_view().len()
                &&& covers_prefix(entries@, blocks.deep_view(), next as int)
                &&& is_ascii_seq(blocks.deep_view()[next as int])
            },
            Machine::AwaitBlockAck { root, blocks, metadata_address, next, entries } => {
                &&& blocks_wf(root@, blocks.deep_view())
                &&& maddr_wf(metadata_address@)
                &&& (next as int) < blocks.deep_view().len()
                &&& covers_prefix(entries@, blocks.deep_view(), next + 1)
            },
            Machine::AwaitManifestAck { root, blocks, metadata_address, entries, manifest_digest } => {
                &&& blocks_wf(root@, blocks.deep_view())
                &&& maddr_wf(metadata_address@)
                &&& covers_prefix(entries@, blocks.deep_view(), blocks.deep_view().len() as int)
                &&& manifest_digest@.len() == 32
            },
            _ => true,
        }
    }
}

/// The request was aborted: the machine is terminally rejected and the
/// shell is told the diagnostic.
pub open spec fn aborted_with(r: (Machine, Action), e: PipelineError) -> bool {
    &&& r.0 matches Machine::Done { status } && status is Reject
    &&& r.1 matches Action::Fail(e2) && e2 == e
}

/// What resuming the block walk at index `next` yields: a fetch of block
/// `next` after its address verifies, an abort before any fetch when it
/// does not, and the manifest encoding once every block is walked.
pub open spec fn continue_post(
    root: Seq<u8>,
    blocks: Seq<Seq<u8>>,
    maddr: Seq<u8>,
    next: int,
    entries: Seq<ManifestEntry>,
    r: (Machine, Action),
) -> bool {
    if next < blocks.len() {
        if address_ok(blocks[next]) {
            &&& r.0 matches Machine::AwaitBlockData {
                root: r2,
                blocks: b2,
                metadata_address: a2,
                next: n2,
                entries: e2,
            } && r2@ == root && b2.deep_view() == blocks && a2@ == maddr && n2 == next && e2@
                == entries
            &&& r.1 matches Action::Fetch(x) && x@ == blocks[next]
        } else {
            &&& r.0 matches Machine::Done { status } && status is Reject
            &&& r.1 matches Action::Fail(e) && (e is MalformedAddress || e is WrongHashAlgorithm)
                && (e is WrongHashAlgorithm ==> is_ascii_seq(blocks[next]) && (cid_hash_code(
                blocks[next],
            ) matches Some(c) && c != MANDATED_HASH_CODE)) && (e is MalformedAddress ==> (
            !is_ascii_seq(blocks[next]) || cid_hash_code(blocks[next]) is None))
        }
    } else {
        let encoded = cbor_manifest_bytes(entries_view(entries));
        if 2 * encoded.len() + 2 > usize::MAX {
            aborted_with(r, PipelineError::EncodingFailed)
        } else {
            &&& r.0 matches Machine::AwaitManifestAck {
                root: r2,
                blocks: b2,
                metadata_address: a2,
                entries: e2,
                manifest_digest: d,
            } && r2@ == root && b2.deep_view() == blocks && a2@ == maddr && e2@ == entries && d@
                == keccak256_of(encoded)
            &&& r.1 matches Action::EmitGio(g) && g@ == hex_framed(encoded)
        }
    }
}

/// The full step relation: what the machine does with each event.
pub open spec fn step_post(m: Machine, ev: Event, r: (Machine, Action)) -> bool {
    match (m, ev) {
        (Machine::Done { status }, _) => {
            &&& r.0 == m
            &&& r.1 matches Action::Finish(s) && s == status
        },
        (_, Event::Failed) => aborted_with(r, PipelineError::TransportFailed),
        (Machine::AwaitArtifact, Event::Artifact(a)) => {
            &&& r.0 is AwaitArtifactAddress
            &&& r.1 matches Action::Publish(p) && p@ == a@
        },
        (Machine::AwaitArtifactAddress, Event::Published(addr)) => {
            &&& r.0 matches Machine::AwaitBlockRefs { root } && root@ == addr@
            &&& r.1 matches Action::Enumerate(x) && x@ == addr@
        },
        (Machine::AwaitBlockRefs { root }, Event::Blocks(refs)) => {
            &&& r.0 matches Machine::AwaitMetadataDoc { root: r2, blocks } && r2@ == root@
                && blocks.deep_view() == ordered_blocks(root@, refs.deep_view())
            &&& r.1 matches Action::DeriveMetadata(x) && x@ == root@
        },
        (Machine::AwaitMetadataDoc { root, blocks }, Event::MetadataDoc(doc)) => {
            &&& r.0 matches Machine::AwaitMetadataAddress { root: r2, blocks: b2 } && r2@ == root@
                && b2.deep_view() == blocks.deep_view()
            &&& r.1 matches Action::Publish(p) && p@ == doc@
        },
        (Machine::AwaitMetadataAddress { root, blocks }, Event::Published(maddr)) => {
            if maddr_wf(maddr@) {
                continue_post(root@, blocks.deep_view(), maddr@, 0, Seq::empty(), r)
            } else {
                aborted_with(r, PipelineError::MalformedAddress)
            }
        },
        (
            Machine::AwaitBlockData { root, blocks, metadata_address, next, entries },
            Event::BlockData(data),
        ) => {
            if 2 * data@.len() + 2 > usize::MAX {
                aborted_with(r, PipelineError::EncodingFailed)
            } else {
                &&& r.0 matches Machine::AwaitBlockAck {
                    root: r2,
                    blocks: b2,
                    metadata_address: a2,
                    next: n2,
                    entries: e2,
                } && r2@ == root@ && b2.deep_view() == blocks.deep_view() && a2@
                    == metadata_address@ && n2 == next && e2@.len() == entries@.len() + 1
                    && e2@.subrange(0, entries@.len() as int) == entries@ && e2@.last().address@
                    == blocks.deep_view()[next as int] && e2@.last().digest@ == keccak256_of(data@)
                &&& r.1 matches Action::EmitGio(g) && g@ == hex_framed(data@)
            }
        },
        (
            Machine::AwaitBlockAck { root, blocks, metadata_address, next, entries },
            Event::Delivered,
        ) => continue_post(
            root@,
            blocks.deep_view(),
            metadata_address@,
            next + 1,
            entries@,
            r,
        ),
        (
            Machine::AwaitManifestAck { root, blocks, metadata_address, entries, manifest_digest },
            Event::Delivered,
        ) => {
            let encoded = abi_notice_encoding(metadata_address@, manifest_digest@);
            if 2 * encoded.len() + 2 > usize::MAX {
                aborted_with(r, PipelineError::EncodingFailed)
            } else {
                &&& r.0 is AwaitNoticeAck
                &&& r.1 matches Action::EmitNotice(p) && p@ == hex_framed(encoded)
            }
        },
        (Machine::AwaitNoticeAck, Event::Delivered) => {
            &&& r.0 matches Machine::Done { status } && status is Accept
            &&& r.1 matches Action::Finish(s) && s is Accept
        },
        _ => aborted_with(r, PipelineError::UnexpectedEvent),
    }
}

/// Resumes the block walk at index `next`: verifies the address before any
/// fetch, and finalizes the manifest once every block is walked.
fn continue_advance(
    root: Vec<u8>,
    blocks: Vec<Vec<u8>>,
    metadata_address: Vec<u8>,
    next: usize,
    entries: Vec<ManifestEntry>,
) -> (r: (Machine, Action))
    requires
        blocks_wf(root@, blocks.deep_view()),
        maddr_wf(metadata_address@),
        next <= blocks.deep_view().len(),
        covers_prefix(entries@, blocks.deep_view(), next as int),
    ensures
        r.0.wf(),
        continue_post(root@, blocks.deep_view(), metadata_address@, next as int, entries@, r),
{
    let n = blocks.len();
    if next < n {
        proof {
            lemma_bytes_deep_view(blocks@[next as int]);
        }
        match verify_address(&blocks[next]) {
            Ok(()) => {
                let target = blocks[next].clone();
                proof {
                    assert(target@ =~= blocks@[next as int]@);
                }
                let m = Machine::AwaitBlockData { root, blocks, metadata_address, next, entries };
                (m, Action::Fetch(target))
            },
            Err(e) => (Machine::Done { status: Status::Reject }, Action::Fail(e)),
        }
    } else {
        match cbor_encode_manifest(&entries) {
            Ok(cb) => {
                let manifest_digest = keccak256(&cb);
                match hex_frame(&cb) {
                    Some(g) => {
                        let m = Machine::AwaitManifestAck {
                            root,
                            blocks,
                            metadata_address,
                            entries,
                            manifest_digest,
                        };
                        (m, Action::EmitGio(g))
                    },
                    None => (
                        Machine::Done { status: Status::Reject },
                        Action::Fail(PipelineError::EncodingFailed),
                    ),
                }
            },
            Err(_) => {
                // Every manifest address is ASCII, so the encoding cannot
                // fail; the contract of the encoder rules this arm out.
                proof {
                    assert(false);
                }
                (
                    Machine::Done { status: Status::Reject },
                    Action::Fail(PipelineError::EncodingFailed),
                )
            },
        }
    }
}

/// Performs one decision step: consumes the machine and the event the
/// shell observed, and returns the next machine with the next action.
pub fn step(m: Machine, ev: Event) -> (r: (Machine, Action))
    requires
        m.wf(),
    ensures
        r.0.wf(),
        step_post(m, ev, r),
{
    match (m, ev) {
        (Machine::Done { status }, _) => (Machine::Done { status }, Action::Finish(status)),
        (_, Event::Failed) => (
            Machine::Done { status: Status::Reject },
            Action::Fail(PipelineError::TransportFailed),
        ),
        (Machine::AwaitArtifact, Event::Artifact(a)) => (
            Machine::AwaitArtifactAddress,
            Action::Publish(a),
        ),
        (Machine::AwaitArtifactAddress, Event::Published(addr)) => {
            let target = addr.clone();
            proof {
                assert(target@ =~= addr@);
            }
            (Machine::AwaitBlockRefs { root: addr }, Action::Enumerate(target))
        },
        (Machine::AwaitBlockRefs { root }, Event::Blocks(refs)) => {
            let target = root.clone();
            proof {
                assert(target@ =~= root@);
            }
            let blocks = order_blocks(root, &refs);
            proof {
                crate::manifest::lemma_ordered_blocks(target@, refs.deep_view());
            }
            let ghost root_view = target@;
            let m2 = Machine::AwaitMetadataDoc { root: target.clone(), blocks };
            proof {
                assert(m2 matches Machine::AwaitMetadataDoc { root: r2, .. } && r2@ =~= root_view);
            }
            (m2, Action::DeriveMetadata(target))
        },
        (Machine::AwaitMetadataDoc { root, blocks }, Event::MetadataDoc(doc)) => (
            Machine::AwaitMetadataAddress { root, blocks },
            Action::Publish(doc),
        ),
        (Machine::AwaitMetadataAddress { root, blocks }, Event::Published(maddr)) => {
            let ascii = crate::encoding::check_ascii(&maddr);
            if !ascii || (maddr.len() as u64) > 0xFFFFFF00u64 {
                (
                    Machine::Done { status: Status::Reject },
                    Action::Fail(PipelineError::MalformedAddress),
                )
            } else {
                continue_advance(root, blocks, maddr, 0, Vec::new())
            }
        },
        (
            Machine::AwaitBlockData { root, blocks, metadata_address, next, entries },
            Event::BlockData(data),
        ) => {
            let digest = keccak256(&data);
            match hex_frame(&data) {
                Some(g) => {
                    proof {
                        lemma_bytes_deep_view(blocks@[next as int]);
                    }
                    let address = blocks[next].clone();
                    proof {
                        assert(address@ =~= blocks@[next as int]@);
                    }
                    let mut entries = entries;
                    let ghost old_entries = entries@;
                    entries.push(ManifestEntry { address, digest });
                    proof {
                        assert(entries@.subrange(0, old_entries.len() as int) =~= old_entries);
                    }
                    let m2 = Machine::AwaitBlockAck {
                        root,
                        blocks,
                        metadata_address,
                        next,
                        entries,
                    };
                    (m2, Action::EmitGio(g))
                },
                None => (
                    Machine::Done { status: Status::Reject },
                    Action::Fail(PipelineError::EncodingFailed),
                ),
            }
        },
        (
            Machine::AwaitBlockAck { root, blocks, metadata_address, next, entries },
            Event::Delivered,
        ) => {
            let nb = blocks.len();
            proof {
                assert(blocks.deep_view().len() == nb);
            }
            continue_advance(root, blocks, metadata_address, next + 1, entries)
        },
        (
            Machine::AwaitManifestAck { root, blocks, metadata_address, entries, manifest_digest },
            Event::Delivered,
        ) => {
            let encoded = abi_encode_notice(&metadata_address, &manifest_digest);
            match hex_frame(&encoded) {
                Some(p) => (Machine::AwaitNoticeAck, Action::EmitNotice(p)),
                None => (
                    Machine::Done { status: Status::Reject },
                    Action::Fail(PipelineError::EncodingFailed),
                ),
            }
        },
        (Machine::AwaitNoticeAck, Event::Delivered) => (
            Machine::Done { status: Status::Accept },
            Action::Finish(Status::Accept),
        ),
        _ => (
            Machine::Done { status: Status::Reject },
            Action::Fail(PipelineError::UnexpectedEvent),
        ),
    }
}

/// The payload field is `0x` followed by an even run of hex digits.
pub open spec fn payload_field_wf(s: Seq<u8>) -> bool {
    &&& s.len() >= 2
    &&& s[0] == 0x30
    &&& s[1] == 0x78
    &&& is_hex_seq(s.skip(2))
}

/// The binary payload a well-formed field denotes.
pub open spec fn payload_bytes(s: Seq<u8>) -> Seq<u8> {
    hex_decoded(s.skip(2))
}

/// Decodes the request's payload field; rejects anything that is not a
/// `0x`-prefixed even-length hex string.
pub fn parse_payload(field: &Vec<u8>) -> (r: Result<Vec<u8>, PipelineError>)
    ensures
        r is Ok <==> payload_field_wf(field@),
        r matches Ok(v) ==> v@ == payload_bytes(field@),
        r matches Err(e) ==> e is MalformedPayload,
{
    let n = field.len();
    if n < 2 || field[0] != 0x30 || field[1] != 0x78 {
        return Err(PipelineError::MalformedPayload);
    }
    let digits = copy_range(field, 2, n);
    proof {
        assert(digits@ =~= field@.skip(2));
    }
    match crate::encoding::hex_decode(&digits) {
        Some(v) => Ok(v),
        None => Err(PipelineError::MalformedPayload),
    }
}

/// Classifies the request by its wire tag.
pub fn classify_request(request_type: &Vec<u8>) -> (k: RequestKind)
    ensures
        k is Advance <==> request_type@ == advance_tag(),
        k is Inspect <==> request_type@ == inspect_tag(),
{
    let advance = advance_tag_bytes();
    if tag_eq(request_type, &advance) {
        RequestKind::Advance
    } else {
        let inspect = inspect_tag_bytes();
        if tag_eq(request_type, &inspect) {
            RequestKind::Inspect
        } else {
            RequestKind::Unknown
        }
    }
}

/// Byte comparison of the request tag against an expected tag.
fn tag_eq(v: &Vec<u8>, tag: &Vec<u8>) -> (r: bool)
    ensures
        r == (v@ == tag@),
{
    if v.len() != tag.len() {
        return false;
    }
    let n = v.len();
    let mut i: usize = 0;
    while i < n
        invariant
            i <= n,
            n == v@.len(),
            n == tag@.len(),
            forall|j: int| 0 <= j < i ==> v@[j] == tag@[j],
        decreases n - i,
    {
        if v[i] != tag[i] {
            return false;
        }
        i = i + 1;
    }
    proof {
        assert(v@ =~= tag@);
    }
    true
}

/// Receives one request from the coordination server and decides how it is
/// handled: an Advance starts the notarization pipeline with the seed its
/// payload derives; an Inspect is acknowledged with `Accept` and performs
/// nothing; an unknown kind is rejected without invoking any handler; a
/// missing or malformed payload is rejected with its diagnostic.
pub fn start_request(request_type: &Vec<u8>, payload: Option<&Vec<u8>>) -> (r: (Machine, Action))
    ensures
        r.0.wf(),
        request_type@ != advance_tag() && request_type@ != inspect_tag() ==> {
            &&& r.0 matches Machine::Done { status } && status is Reject
            &&& r.1 matches Action::Finish(s) && s is Reject
        },
        request_type@ == inspect_tag() ==> match payload {
            Some(_) => {
                &&& r.0 matches Machine::Done { status } && status is Accept
                &&& r.1 matches Action::Finish(s) && s is Accept
            },
            None => aborted_with(r, PipelineError::MissingPayload),
        },
        request_type@ == advance_tag() ==> match payload {
            Some(p) => {
                if payload_field_wf(p@) {
                    &&& r.0 is AwaitArtifact
                    &&& r.1 matches Action::Synthesize(seed) && seed == seed_of(payload_bytes(p@))
                } else {
                    aborted_with(r, PipelineError::MalformedPayload)
                }
            },
            None => aborted_with(r, PipelineError::MissingPayload),
        },
{
    match classify_request(request_type) {
        RequestKind::Advance => match payload {
            Some(p) => match parse_payload(p) {
                Ok(bytes) => {
                    let seed = seed_from_payload(&bytes);
                    (Machine::AwaitArtifact, Action::Synthesize(seed))
                },
                Err(e) => (Machine::Done { status: Status::Reject }, Action::Fail(e)),
            },
            None => (
                Machine::Done { status: Status::Reject },
                Action::Fail(PipelineError::MissingPayload),
            ),
        },
        RequestKind::Inspect => match payload {
            Some(_) => (Machine::Done { status: Status::Accept }, Action::Finish(Status::Accept)),
            None => (
                Machine::Done { status: Status::Reject },
                Action::Fail(PipelineError::MissingPayload),
            ),
        },
        RequestKind::Unknown => (
            Machine::Done { status: Status::Reject },
            Action::Finish(Status::Reject),
        ),
    }
}

/// A handled request is final: whatever event arrives, a `Done` machine
/// only restates its status and never orders another outside call.
pub proof fn lemma_done_is_final(m: Machine, ev: Event, r: (Machine, Action))
    requires
        m matches Machine::Done { .. },
        step_post(m, ev, r),
    ensures
        r.0 == m,
        r.1 matches Action::Finish(s) && (m matches Machine::Done { status } && s == status),
        !(r.1 is Publish),
        !(r.1 is Fetch),
        !(r.1 is EmitGio),
        !(r.1 is EmitNotice),
{
}

/// A block whose address declares a non-mandated algorithm aborts the walk
/// before any fetch: the step neither fetches that block nor ever reaches
/// the notice, and the request is rejected with a diagnostic.
pub proof fn lemma_bad_address_aborts(
    root: Seq<u8>,
    blocks: Seq<Seq<u8>>,
    maddr: Seq<u8>,
    next: int,
    entries: Seq<ManifestEntry>,
    r: (Machine, Action),
)
    requires
        0 <= next < blocks.len(),
        !address_ok(blocks[next]),
        continue_post(root, blocks, maddr, next, entries, r),
    ensures
        !(r.1 is Fetch),
        !(r.1 is EmitGio),
        !(r.1 is EmitNotice),
        r.0 matches Machine::Done { status } && status is Reject,
        r.1 matches Action::Fail(e) && (e is MalformedAddress || e is WrongHashAlgorithm),
{
}

/// Once the walk is complete, the manifest covers the walked block list
/// exactly: one entry per block, in order, no duplicates, the root at the
/// head. Together with `lemma_ordered_blocks` — the walked list holds the
/// root and every enumerated reference, nothing else — the manifest is
/// complete for the enumeration.
pub proof fn lemma_manifest_complete(m: Machine)
    requires
        m.wf(),
        m matches Machine::AwaitManifestAck { .. },
    ensures
        m matches Machine::AwaitManifestAck { root, blocks, entries, .. } ==> {
            &&& entries@.len() == blocks.deep_view().len()
            &&& forall|i: int|
                0 <= i < blocks.deep_view().len() ==> (#[trigger] entries@[i]).address@
                    == blocks.deep_view()[i]
            &&& no_dup(blocks.deep_view())
            &&& blocks.deep_view().len() >= 1 && blocks.deep_view()[0] == root@
        },
{
}

/// The (address, digest) pairs the walk assembles when block `i`'s
/// delivered bytes are `data[i]`.
pub open spec fn walk_pairs(blocks: Seq<Seq<u8>>, data: Seq<Seq<u8>>) -> Seq<(Seq<u8>, Seq<u8>)> {
    Seq::new(blocks.len(), |i: int| (blocks[i], keccak256_of(data[i])))
}

/// The events of a block walk: block bytes and delivery acknowledgements,
/// strictly alternating, carrying `data[from..]`.
pub open spec fn walk_events(evs: Seq<Event>, data: Seq<Seq<u8>>, from: int) -> bool {
    &&& forall|j: int|
        0 <= j < evs.len() && j % 2 == 0 ==> ((#[trigger] evs[j]) matches Event::BlockData(d) && d@
            == data[from + j / 2])
    &&& forall|j: int| 0 <= j < evs.len() && j % 2 == 1 ==> (#[trigger] evs[j]) is Delivered
}

/// The step results `rs` form a chain under `step_post` from `m0` along
/// the events `evs`.
pub open spec fn step_chain(m0: Machine, evs: Seq<Event>, rs: Seq<(Machine, Action)>) -> bool {
    &&& rs.len() == evs.len()
    &&& rs.len() > 0 ==> step_post(m0, evs[0], rs[0])
    &&& forall|j: int| 1 <= j < rs.len() ==> step_post(rs[j - 1].0, #[trigger] evs[j], rs[j])
}

/// The block walk, composed: from a mid-walk machine about to fetch block
/// `from`, whose manifest already pairs the first `from` blocks with the
/// digests of their delivered bytes, any chain of steps that delivers
/// bytes `data[from..]` and acknowledges each emission ends at the
/// manifest emission: the machine holds the full (address, digest) pairing
/// of the walked blocks and the digest of its encoding, and the emitted
/// payload frames that encoding. Nothing but the stated contracts of
/// `step` enters the proof.
pub proof fn lemma_block_walk(
    blocks: Seq<Seq<u8>>,
    maddr: Seq<u8>,
    data: Seq<Seq<u8>>,
    m0: Machine,
    evs: Seq<Event>,
    rs: Seq<(Machine, Action)>,
    from: int,
)
    requires
        data.len() == blocks.len(),
        0 <= from < blocks.len(),
        m0 matches Machine::AwaitBlockData { blocks: bv, metadata_address: av, next: nx, entries: en, .. }
            && bv.deep_view() == blocks && av@ == maddr && nx == from && entries_view(en@)
            == walk_pairs(blocks, data).take(from),
        evs.len() == 2 * (blocks.len() - from),
        walk_events(evs, data, from),
        step_chain(m0, evs, rs),
        forall|i: int| from <= i < blocks.len() ==> address_ok(#[trigger] blocks[i]),
        forall|i: int| from <= i < blocks.len() ==> 2 * (#[trigger] data[i]).len() + 2 <= usize::MAX,
        2 * cbor_manifest_bytes(walk_pairs(blocks, data)).len() + 2 <= usize::MAX,
    ensures
        rs.last().0 matches Machine::AwaitManifestAck { metadata_address: av, entries: en, manifest_digest: d, .. }
            && av@ == maddr && entries_view(en@) == walk_pairs(blocks, data) && d@
            == keccak256_of(cbor_manifest_bytes(walk_pairs(blocks, data))),
        rs.last().1 matches Action::EmitGio(g) && g@ == hex_framed(
            cbor_manifest_bytes(walk_pairs(blocks, data)),
        ),
    decreases blocks.len() - from,
{
    let pairs = walk_pairs(blocks, data);
    let en0 = m0->AwaitBlockData_entries;
    assert(evs[0] matches Event::BlockData(d) && d@ == data[from]);
    let r0 = rs[0];
    // Delivering block `from`'s bytes appends its pair and emits the bytes.
    assert(r0.0 matches Machine::AwaitBlockAck { blocks: bv, metadata_address: av, next: nx, entries: en, .. }
        && bv.deep_view() == blocks && av@ == maddr && nx == from && entries_view(en@)
        == pairs.take(from + 1)) by {
        assert(step_post(m0, evs[0], r0));
        assert(2 * data[from].len() + 2 <= usize::MAX);
        let en1 = r0.0->AwaitBlockAck_entries;
        assert(en0@.len() == from) by {
            assert(entries_view(en0@).len() == pairs.take(from as int).len());
        }
        assert(en1@.subrange(0, from as int) == en0@);
        assert(en1@.len() == from + 1);
        assert forall|i: int| 0 <= i < from + 1 implies entries_view(en1@)[i] == pairs.take(
            from + 1,
        )[i] by {
            assert(entries_view(en1@)[i] == (en1@[i].address@, en1@[i].digest@));
            if i < from {
                assert(en1@[i] == en0@[i]);
                assert(entries_view(en0@)[i] == (en0@[i].address@, en0@[i].digest@));
                assert(entries_view(en0@)[i] == pairs.take(from as int)[i]);
            } else {
                assert(en1@[i] == en1@.last());
            }
        }
        assert(entries_view(en1@) =~~= pairs.take(from + 1));
    }
    // Acknowledging the emission either fetches the next block or, after
    // the last one, encodes the manifest.
    assert(evs[1] is Delivered);
    let r1 = rs[1];
    assert(step_post(r0.0, evs[1], r1));
    let en1 = r0.0->AwaitBlockAck_entries;
    assert(continue_post(
        r0.0->AwaitBlockAck_root@,
        blocks,
        maddr,
        from + 1,
        en1@,
        r1,
    ));
    if from + 1 == blocks.len() {
        assert(pairs.take(from + 1) =~= pairs);
        assert(rs.last() == r1);
    } else {
        assert(r1.0 matches Machine::AwaitBlockData { blocks: bv, metadata_address: av, next: nx, entries: en, .. }
            && bv.deep_view() == blocks && av@ == maddr && nx == from + 1 && entries_view(en@)
            == pairs.take(from + 1));
        let evs2 = evs.skip(2);
        let rs2 = rs.skip(2);
        assert(walk_events(evs2, data, from + 1)) by {
            assert forall|j: int| 0 <= j < evs2.len() && j % 2 == 0 implies ((#[trigger] evs2[j]) matches Event::BlockData(d)
                && d@ == data[from + 1 + j / 2]) by {
                assert(evs2[j] == evs[j + 2]);
                assert((j + 2) % 2 == 0 && (j + 2) / 2 == j / 2 + 1);
            }
            assert forall|j: int| 0 <= j < evs2.len() && j % 2 == 1 implies (#[trigger] evs2[j]) is Delivered by {
                assert(evs2[j] == evs[j + 2]);
                assert((j + 2) % 2 == 1);
            }
        }
        assert(step_chain(r1.0, evs2, rs2)) by {
            assert(rs2[0] == rs[2] && evs2[0] == evs[2]);
            assert(step_post(rs[1].0, evs[2], rs[2]));
            assert forall|j: int| 1 <= j < rs2.len() implies step_post(rs2[j - 1].0, #[trigger] evs2[j], rs2[j]) by {
                assert(rs2[j] == rs[j + 2] && rs2[j - 1] == rs[j + 1] && evs2[j] == evs[j + 2]);
                assert(step_post(rs[j + 1].0, evs[j + 2], rs[j + 2]));
            }
        }
        lemma_block_walk(blocks, maddr, data, r1.0, evs2, rs2, from + 1);
        assert(rs2.last() == rs.last());
    }
}

/// The final hop: from the manifest-emission state, acknowledging the
/// delivery emits the notice, and its payload frames the ABI encoding of
/// the metadata address with the manifest digest. Together with
/// `lemma_block_walk`, the notice a completed walk emits attests exactly
/// `keccak256_of(cbor_manifest_bytes(walk_pairs(blocks, data)))` under the
/// machine's metadata address.
/// The Advance scenario, composed end to end at the specification level.
/// From the freshly seeded machine, one chain of steps — artifact
/// synthesized and published at `root`, blocks enumerated as `refs`,
/// metadata published at `maddr`, every block's bytes `data[i]` delivered
/// and every emission acknowledged — ends in the notice emission, and the
/// emitted payload frames the ABI pairing of the metadata address with
/// the digest of the encoded manifest, whose pairs bind each address of
/// the deduplicated, root-first block list to the digest of its delivered
/// bytes. The side conditions ask only that every block address declares
/// the mandated algorithm and that the framed payloads fit in memory.
pub proof fn lemma_advance_end_to_end(
    root: Seq<u8>,
    refs: Seq<Seq<u8>>,
    maddr: Seq<u8>,
    data: Seq<Seq<u8>>,
    evs: Seq<Event>,
    rs: Seq<(Machine, Action)>,
)
    requires
        ({
            let blocks = ordered_blocks(root, refs);
            &&& data.len() == blocks.len()
            &&& evs.len() == 6 + 2 * blocks.len()
            &&& step_chain(Machine::AwaitArtifact, evs, rs)
            &&& evs[0] is Artifact
            &&& evs[1] matches Event::Published(a) && a@ == root
            &&& evs[2] matches Event::Blocks(rf) && rf.deep_view() == refs
            &&& evs[3] is MetadataDoc
            &&& evs[4] matches Event::Published(mv) && mv@ == maddr
            &&& maddr_wf(maddr)
            &&& walk_events(evs.subrange(5, evs.len() - 1), data, 0)
            &&& evs.last() is Delivered
            &&& forall|i: int| 0 <= i < blocks.len() ==> address_ok(#[trigger] blocks[i])
            &&& forall|i: int|
                0 <= i < blocks.len() ==> 2 * (#[trigger] data[i]).len() + 2 <= usize::MAX
            &&& 2 * cbor_manifest_bytes(walk_pairs(blocks, data)).len() + 2 <= usize::MAX
            &&& 2 * abi_notice_encoding(
                maddr,
                keccak256_of(cbor_manifest_bytes(walk_pairs(blocks, data))),
            ).len() + 2 <= usize::MAX
        }),
    ensures
        rs.last().0 is AwaitNoticeAck,
        rs.last().1 matches Action::EmitNotice(p) && p@ == hex_framed(
            abi_notice_encoding(
                maddr,
                keccak256_of(cbor_manifest_bytes(walk_pairs(ordered_blocks(root, refs), data))),
            ),
        ),
{
    let blocks = ordered_blocks(root, refs);
    let n = blocks.len() as int;
    crate::manifest::lemma_ordered_blocks(root, refs);
    // The five opening steps reach the first fetch.
    assert(step_post(Machine::AwaitArtifact, evs[0], rs[0]));
    assert(rs[0].0 is AwaitArtifactAddress);
    assert(step_post(rs[0].0, evs[1], rs[1]));
    assert(rs[1].0 matches Machine::AwaitBlockRefs { root: r1 } && r1@ == root);
    assert(step_post(rs[1].0, evs[2], rs[2]));
    assert(rs[2].0 matches Machine::AwaitMetadataDoc { root: r2, blocks: b2 } && r2@ == root
        && b2.deep_view() == blocks);
    assert(step_post(rs[2].0, evs[3], rs[3]));
    assert(rs[3].0 matches Machine::AwaitMetadataAddress { root: r3, blocks: b3 } && r3@ == root
        && b3.deep_view() == blocks);
    assert(step_post(rs[3].0, evs[4], rs[4]));
    let m5 = rs[4].0;
    assert(m5 matches Machine::AwaitBlockData { blocks: bv, metadata_address: av, next: nx, entries: en, .. }
        && bv.deep_view() == blocks && av@ == maddr && nx == 0 && entries_view(en@)
        == walk_pairs(blocks, data).take(0)) by {
        assert(continue_post(root, blocks, maddr, 0, Seq::empty(), rs[4]));
        assert(address_ok(blocks[0]));
        let en5 = m5->AwaitBlockData_entries;
        assert(entries_view(en5@) =~~= walk_pairs(blocks, data).take(0));
    }
    // The walk covers every block and ends at the manifest emission.
    let evs_walk = evs.subrange(5, 5 + 2 * n);
    let rs_walk = rs.subrange(5, 5 + 2 * n);
    assert(evs_walk =~= evs.subrange(5, evs.len() - 1));
    assert(step_chain(m5, evs_walk, rs_walk)) by {
        assert(rs_walk[0] == rs[5] && evs_walk[0] == evs[5]);
        assert(step_post(rs[4].0, evs[5], rs[5]));
        assert forall|j: int|
            1 <= j < rs_walk.len() implies step_post(
            rs_walk[j - 1].0,
            #[trigger] evs_walk[j],
            rs_walk[j],
        ) by {
            assert(rs_walk[j] == rs[5 + j] && rs_walk[j - 1] == rs[4 + j] && evs_walk[j] == evs[5
                + j]);
            assert(step_post(rs[4 + j].0, evs[5 + j], rs[5 + j]));
        }
    }
    lemma_block_walk(blocks, maddr, data, m5, evs_walk, rs_walk, 0);
    let mm = rs_walk.last().0;
    assert(rs_walk.last() == rs[4 + 2 * n]);
    // Acknowledging the manifest emission emits the notice.
    assert(step_post(rs[4 + 2 * n].0, evs[5 + 2 * n], rs[5 + 2 * n]));
    assert(evs[5 + 2 * n] == evs.last() && rs[5 + 2 * n] == rs.last());
    lemma_notice_emission(mm, evs.last(), rs.last());
}

pub proof fn lemma_notice_emission(m: Machine, ev: Event, r: (Machine, Action))
    requires
        m matches Machine::AwaitManifestAck { .. },
        ev is Delivered,
        step_post(m, ev, r),
        2 * abi_notice_encoding(
            m->AwaitManifestAck_metadata_address@,
            m->AwaitManifestAck_manifest_digest@,
        ).len() + 2 <= usize::MAX,
    ensures
        r.0 is AwaitNoticeAck,
        r.1 matches Action::EmitNotice(p) && p@ == hex_framed(
            abi_notice_encoding(
                m->AwaitManifestAck_metadata_address@,
                m->AwaitManifestAck_manifest_digest@,
            ),
        ),
{
}

/// Whether `bs` holds two equal addresses.
fn check_no_dup(bs: &Vec<Vec<u8>>) -> (r: bool)
    ensures
        r == no_dup(bs.deep_view()),
{
    let n = bs.len();
    let mut i: usize = 0;
    while i < n
        invariant
            i <= n,
            n == bs@.len(),
            forall|a: int, b: int| 0 <= a < b < n && a < i ==> bs.deep_view()[a] != bs.deep_view()[b],
        decreases n - i,
    {
        let mut j: usize = i + 1;
        while j < n
            invariant
                i < n,
                i + 1 <= j <= n,
                n == bs@.len(),
                forall|a: int, b: int|
                    0 <= a < b < n && a < i ==> bs.deep_view()[a] != bs.deep_view()[b],
                forall|b: int| i < b < j ==> bs.deep_view()[i as int] != bs.deep_view()[b],
            decreases n - j,
        {
            let same = crate::manifest::bytes_eq(&bs[i], &bs[j]);
            proof {
                lemma_bytes_deep_view(bs@[i as int]);
                lemma_bytes_deep_view(bs@[j as int]);
            }
            if same {
                proof {
                    assert(bs.deep_view()[i as int] == bs.deep_view()[j as int]);
                    assert(!no_dup(bs.deep_view()));
                }
                return false;
            }
            j = j + 1;
        }
        i = i + 1;
    }
    true
}

/// Whether `blocks` is a well-formed walk list for `root`.
fn check_blocks_wf(root: &Vec<u8>, blocks: &Vec<Vec<u8>>) -> (r: bool)
    ensures
        r == blocks_wf(root@, blocks.deep_view()),
{
    if blocks.len() == 0 {
        return false;
    }
    let rooted = crate::manifest::bytes_eq(&blocks[0], root);
    proof {
        lemma_bytes_deep_view(blocks@[0]);
    }
    if !rooted {
        return false;
    }
    check_no_dup(blocks)
}

/// Whether `maddr` is a usable metadata address.
fn check_maddr(maddr: &Vec<u8>) -> (r: bool)
    ensures
        r == maddr_wf(maddr@),
{
    crate::encoding::check_ascii(maddr) && (maddr.len() as u64) <= 0xFFFFFF00u64
}

/// Whether the first `n` entries cover the first `n` blocks.
fn check_covers(entries: &Vec<ManifestEntry>, blocks: &Vec<Vec<u8>>, n: usize) -> (r: bool)
    requires
        n <= blocks@.len(),
    ensures
        r == covers_prefix(entries@, blocks.deep_view(), n as int),
{
    if entries.len() != n {
        return false;
    }
    let mut i: usize = 0;
    while i < n
        invariant
            i <= n,
            n <= blocks@.len(),
            n == entries@.len(),
            forall|k: int|
                0 <= k < i ==> (#[trigger] entries@[k]).address@ == blocks.deep_view()[k]
                    && crate::manifest::entry_wf(entries@[k]),
        decreases n - i,
    {
        let lined_up = crate::manifest::bytes_eq(&entries[i].address, &blocks[i]);
        proof {
            lemma_bytes_deep_view(blocks@[i as int]);
        }
        if !lined_up {
            return false;
        }
        if entries[i].digest.len() != 32 {
            return false;
        }
        if !crate::encoding::check_ascii(&entries[i].address) {
            return false;
        }
        i = i + 1;
    }
    true
}

/// Recomputes the machine invariant, so the unverified shell can test it
/// before handing the machine to `step`.
pub fn check_wf(m: &Machine) -> (b: bool)
    ensures
        b == m.wf(),
{
    match m {
        Machine::AwaitMetadataDoc { root, blocks } => check_blocks_wf(root, blocks),
        Machine::AwaitMetadataAddress { root, blocks } => check_blocks_wf(root, blocks),
        Machine::AwaitBlockData { root, blocks, metadata_address, next, entries } => {
            if !check_blocks_wf(root, blocks) || !check_maddr(metadata_address) {
                return false;
            }
            if !(*next < blocks.len()) {
                return false;
            }
            if !check_covers(entries, blocks, *next) {
                return false;
            }
            let ascii = crate::encoding::check_ascii(&blocks[*next]);
            proof {
                lemma_bytes_deep_view(blocks@[*next as int]);
            }
            ascii
        },
        Machine::AwaitBlockAck { root, blocks, metadata_address, next, entries } => {
            if !check_blocks_wf(root, blocks) || !check_maddr(metadata_address) {
                return false;
            }
            if !(*next < blocks.len()) {
                return false;
            }
            check_covers(entries, blocks, *next + 1)
        },
        Machine::AwaitManifestAck { root, blocks, metadata_address, entries, manifest_digest } => {
            if !check_blocks_wf(root, blocks) || !check_maddr(metadata_address) {
                return false;
            }
            if !check_covers(entries, blocks, blocks.len()) {
                return false;
            }
            manifest_digest.len() == 32
        },
        _ => true,
    }
}

} // verus!
