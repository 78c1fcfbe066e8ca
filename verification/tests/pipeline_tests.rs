use tiny_keccak::Hasher;
use wartime_penguins::driver::{check_wf, start_request, step, Action, Event, Machine};
use wartime_penguins::errors::{PipelineError, Status};

fn keccak(data: &[u8]) -> [u8; 32] {
    let mut k = tiny_keccak::Keccak::v256();
    let mut out = [0u8; 32];
    k.update(data);
    k.finalize(&mut out);
    out
}

/// A CIDv1 (raw codec) whose multihash declares the mandated Keccak-256
/// algorithm over `data`.
fn keccak_cid(data: &[u8]) -> Vec<u8> {
    let mh = multihash::Multihash::wrap(0x1b, &keccak(data)).unwrap();
    cid::Cid::new_v1(0x55, mh).to_string().into_bytes()
}

/// A CIDv1 whose multihash declares SHA2-256 instead.
fn sha2_cid(data: &[u8]) -> Vec<u8> {
    let mh = multihash::Multihash::wrap(0x12, &keccak(data)).unwrap();
    cid::Cid::new_v1(0x55, mh).to_string().into_bytes()
}

fn framed(data: &[u8]) -> Vec<u8> {
    format!("0x{}", hex::encode(data)).into_bytes()
}

fn checked_step(m: Machine, ev: Event) -> (Machine, Action) {
    assert!(check_wf(&m), "machine invariant must hold before stepping");
    let (m2, a) = step(m, ev);
    assert!(check_wf(&m2), "machine invariant must hold after stepping");
    (m2, a)
}

#[test]
fn inspect_accepts_and_performs_nothing() {
    let (m, a) = start_request(&b"inspect_state".to_vec(), Some(&b"0x00".to_vec()));
    assert!(matches!(a, Action::Finish(Status::Accept)));
    assert!(matches!(m, Machine::Done { status: Status::Accept }));
    // Whatever arrives later, a handled request only restates its status.
    let (m, a) = checked_step(m, Event::Published(b"bafy".to_vec()));
    assert!(matches!(a, Action::Finish(Status::Accept)));
    assert!(matches!(m, Machine::Done { status: Status::Accept }));
}

#[test]
fn inspect_without_payload_rejects() {
    let (m, a) = start_request(&b"inspect_state".to_vec(), None);
    assert!(matches!(a, Action::Fail(PipelineError::MissingPayload)));
    assert!(matches!(m, Machine::Done { status: Status::Reject }));
}

#[test]
fn unknown_kind_rejects_without_invoking_a_handler() {
    let (m, a) = start_request(&b"query_state".to_vec(), Some(&b"0x00".to_vec()));
    assert!(matches!(a, Action::Finish(Status::Reject)));
    assert!(matches!(m, Machine::Done { status: Status::Reject }));
}

#[test]
fn advance_without_payload_rejects() {
    let (_, a) = start_request(&b"advance_state".to_vec(), None);
    assert!(matches!(a, Action::Fail(PipelineError::MissingPayload)));
}

#[test]
fn advance_with_malformed_payload_rejects() {
    let (_, a) = start_request(&b"advance_state".to_vec(), Some(&b"0xzz".to_vec()));
    assert!(matches!(a, Action::Fail(PipelineError::MalformedPayload)));
}

#[test]
fn advance_seeds_the_synthesizer_from_the_payload_digest() {
    let (m, a) = start_request(&b"advance_state".to_vec(), Some(&b"0x0102".to_vec()));
    let digest = keccak(&[0x01, 0x02]);
    let expected = u64::from_be_bytes(digest[0..8].try_into().unwrap());
    assert!(matches!(m, Machine::AwaitArtifact));
    match a {
        Action::Synthesize(seed) => assert_eq!(seed, expected),
        _ => panic!("expected a synthesizer run"),
    }
}

#[test]
fn transport_failure_rejects_and_continues() {
    let (m, _) = start_request(&b"advance_state".to_vec(), Some(&b"0x0102".to_vec()));
    let (m, a) = checked_step(m, Event::Failed);
    assert!(matches!(a, Action::Fail(PipelineError::TransportFailed)));
    assert!(matches!(m, Machine::Done { status: Status::Reject }));
}

#[test]
fn mismatched_event_rejects() {
    let (m, _) = start_request(&b"advance_state".to_vec(), Some(&b"0x0102".to_vec()));
    let (m, a) = checked_step(m, Event::Delivered);
    assert!(matches!(a, Action::Fail(PipelineError::UnexpectedEvent)));
    assert!(matches!(m, Machine::Done { status: Status::Reject }));
}

/// Walks an Advance request up to the point where the first block is about
/// to be fetched, with `refs` as the raw enumeration output.
fn walk_to_first_fetch(
    artifact: &[u8],
    root: &[u8],
    refs: Vec<Vec<u8>>,
    metadata_address: &[u8],
) -> (Machine, Action) {
    let (m, a) = start_request(&b"advance_state".to_vec(), Some(&b"0x0102".to_vec()));
    assert!(matches!(a, Action::Synthesize(_)));
    let (m, a) = checked_step(m, Event::Artifact(artifact.to_vec()));
    match &a {
        Action::Publish(p) => assert_eq!(p, &artifact.to_vec()),
        _ => panic!("expected the artifact publication"),
    }
    let (m, a) = checked_step(m, Event::Published(root.to_vec()));
    match &a {
        Action::Enumerate(x) => assert_eq!(x, &root.to_vec()),
        _ => panic!("expected the block enumeration"),
    }
    let (m, a) = checked_step(m, Event::Blocks(refs));
    match &a {
        Action::DeriveMetadata(x) => assert_eq!(x, &root.to_vec()),
        _ => panic!("expected the metadata derivation"),
    }
    let metadata_doc = b"{\"name\":\"artifact\"}".to_vec();
    let (m, a) = checked_step(m, Event::MetadataDoc(metadata_doc.clone()));
    match &a {
        Action::Publish(p) => assert_eq!(p, &metadata_doc),
        _ => panic!("expected the metadata publication"),
    }
    checked_step(m, Event::Published(metadata_address.to_vec()))
}

#[test]
fn wrong_hash_algorithm_aborts_before_fetch() {
    let artifact = b"artifact bytes".to_vec();
    let root = keccak_cid(&artifact);
    let child = b"child block".to_vec();
    let bad = sha2_cid(&child);
    let maddr = keccak_cid(b"metadata");
    let refs = vec![bad.clone()];
    let (m, a) = walk_to_first_fetch(&artifact, &root, refs, &maddr);
    // The root itself declares the mandated algorithm, so it is fetched.
    match &a {
        Action::Fetch(x) => assert_eq!(x, &root),
        _ => panic!("expected the root fetch"),
    }
    let (m, a) = checked_step(m, Event::BlockData(artifact.clone()));
    assert!(matches!(a, Action::EmitGio(_)));
    // The next block declares SHA2-256: the walk aborts before fetching it.
    let (m, a) = checked_step(m, Event::Delivered);
    assert!(matches!(a, Action::Fail(PipelineError::WrongHashAlgorithm)));
    assert!(matches!(m, Machine::Done { status: Status::Reject }));
    // No notice can follow an abort.
    let (_, a) = checked_step(m, Event::Delivered);
    assert!(matches!(a, Action::Finish(Status::Reject)));
}

#[test]
fn malformed_address_aborts_before_fetch() {
    let artifact = b"artifact bytes".to_vec();
    let root = keccak_cid(&artifact);
    let maddr = keccak_cid(b"metadata");
    let refs = vec![b"not a content address".to_vec()];
    let (m, a) = walk_to_first_fetch(&artifact, &root, refs, &maddr);
    match &a {
        Action::Fetch(x) => assert_eq!(x, &root),
        _ => panic!("expected the root fetch"),
    }
    let (m, a) = checked_step(m, Event::BlockData(artifact.clone()));
    assert!(matches!(a, Action::EmitGio(_)));
    let (m, a) = checked_step(m, Event::Delivered);
    assert!(matches!(a, Action::Fail(PipelineError::MalformedAddress)));
    assert!(matches!(m, Machine::Done { status: Status::Reject }));
}

#[test]
fn end_to_end_notarization_reproduces_the_notice() {
    let artifact = b"\x01\x02 artifact".to_vec();
    let child1 = b"first child".to_vec();
    let child2 = b"second child".to_vec();
    let root = keccak_cid(&artifact);
    let c1 = keccak_cid(&child1);
    let c2 = keccak_cid(&child2);
    let maddr = keccak_cid(b"metadata document");
    // The raw enumeration repeats addresses and includes the root itself;
    // the walk keeps first occurrences only.
    let refs = vec![c1.clone(), root.clone(), c1.clone(), c2.clone()];
    let (m, a) = walk_to_first_fetch(&artifact, &root, refs, &maddr);

    let blocks = [(&root, &artifact), (&c1, &child1), (&c2, &child2)];
    let mut m = m;
    let mut a = a;
    for (i, (addr, data)) in blocks.iter().enumerate() {
        match &a {
            Action::Fetch(x) => assert_eq!(&x, addr, "fetch {} out of order", i),
            _ => panic!("expected a fetch"),
        }
        let (m2, a2) = checked_step(m, Event::BlockData(data.to_vec()));
        match &a2 {
            Action::EmitGio(g) => assert_eq!(g, &framed(data)),
            _ => panic!("expected the block side-channel emission"),
        }
        let (m3, a3) = checked_step(m2, Event::Delivered);
        m = m3;
        a = a3;
    }

    // The manifest pairs every walked address with its locally computed
    // digest, in order, under the canonical CBOR encoding.
    let d_root = keccak(&artifact);
    let d1 = keccak(&child1);
    let d2 = keccak(&child2);
    let pairs: Vec<(&str, &[u8])> = vec![
        (std::str::from_utf8(&root).unwrap(), &d_root),
        (std::str::from_utf8(&c1).unwrap(), &d1),
        (std::str::from_utf8(&c2).unwrap(), &d2),
    ];
    let mut manifest_bytes = Vec::new();
    ciborium::ser::into_writer(&pairs, &mut manifest_bytes).unwrap();
    match &a {
        Action::EmitGio(g) => assert_eq!(g, &framed(&manifest_bytes)),
        _ => panic!("expected the manifest side-channel emission"),
    }

    // The notice pairs the metadata address with the manifest digest.
    let (m, a) = checked_step(m, Event::Delivered);
    let manifest_digest = keccak(&manifest_bytes);
    let expected_notice = ethabi::encode(&[
        ethabi::Token::String(String::from_utf8(maddr.clone()).unwrap()),
        ethabi::Token::FixedBytes(manifest_digest.to_vec()),
    ]);
    let notice_payload = match &a {
        Action::EmitNotice(p) => p.clone(),
        _ => panic!("expected the notice emission"),
    };
    assert_eq!(notice_payload, framed(&expected_notice));

    // Decoding the payload reproduces the exact values it was built from.
    let notice_bytes = hex::decode(&notice_payload[2..]).unwrap();
    let (addr_back, digest_back) =
        wartime_penguins::notice::decode_notice(&notice_bytes).unwrap();
    assert_eq!(addr_back, maddr);
    assert_eq!(digest_back, manifest_digest.to_vec());
    let tokens = ethabi::decode(
        &[ethabi::ParamType::String, ethabi::ParamType::FixedBytes(32)],
        &notice_bytes,
    )
    .unwrap();
    assert_eq!(tokens[0], ethabi::Token::String(String::from_utf8(maddr.clone()).unwrap()));
    assert_eq!(tokens[1], ethabi::Token::FixedBytes(manifest_digest.to_vec()));

    let (_, a) = checked_step(m, Event::Delivered);
    assert!(matches!(a, Action::Finish(Status::Accept)));
}

#[test]
fn status_reports_use_the_wire_words() {
    assert_eq!(Status::Accept.as_report(), "accept");
    assert_eq!(Status::Reject.as_report(), "reject");
}

#[test]
fn error_messages_name_their_causes() {
    assert_eq!(PipelineError::MissingPayload.message(), "request payload is missing");
    assert_eq!(
        PipelineError::WrongHashAlgorithm.message(),
        "block address declares a non-mandated hash algorithm"
    );
    assert_eq!(
        PipelineError::TransportFailed.message(),
        "outside call failed"
    );
}

#[test]
fn check_wf_rejects_a_corrupted_machine() {
    // A walk list without its root cannot be a reachable state.
    let m = Machine::AwaitMetadataDoc { root: b"bafyroot".to_vec(), blocks: Vec::new() };
    assert!(!check_wf(&m));
    let m = Machine::AwaitMetadataDoc {
        root: b"bafyroot".to_vec(),
        blocks: vec![b"bafyother".to_vec()],
    };
    assert!(!check_wf(&m));
    let m = Machine::AwaitMetadataDoc {
        root: b"bafyroot".to_vec(),
        blocks: vec![b"bafyroot".to_vec(), b"bafyx".to_vec(), b"bafyx".to_vec()],
    };
    assert!(!check_wf(&m));
    let m = Machine::AwaitMetadataDoc {
        root: b"bafyroot".to_vec(),
        blocks: vec![b"bafyroot".to_vec(), b"bafyx".to_vec()],
    };
    assert!(check_wf(&m));
}

#[test]
fn single_block_graph_notarizes() {
    let artifact = b"tiny artifact".to_vec();
    let root = keccak_cid(&artifact);
    let maddr = keccak_cid(b"tiny metadata");
    // The enumeration repeats the root and nothing else: the walk visits
    // exactly one block.
    let refs = vec![root.clone(), root.clone()];
    let (m, a) = walk_to_first_fetch(&artifact, &root, refs, &maddr);
    match &a {
        Action::Fetch(x) => assert_eq!(x, &root),
        _ => panic!("expected the root fetch"),
    }
    let (m, a) = checked_step(m, Event::BlockData(artifact.clone()));
    assert!(matches!(a, Action::EmitGio(_)));
    let (m, a) = checked_step(m, Event::Delivered);
    // One entry covers the whole graph; the manifest emission follows.
    let digest = keccak(&artifact);
    let pairs: Vec<(&str, &[u8])> = vec![(std::str::from_utf8(&root).unwrap(), &digest)];
    let mut manifest_bytes = Vec::new();
    ciborium::ser::into_writer(&pairs, &mut manifest_bytes).unwrap();
    match &a {
        Action::EmitGio(g) => assert_eq!(g, &framed(&manifest_bytes)),
        _ => panic!("expected the manifest side-channel emission"),
    }
    let (m, a) = checked_step(m, Event::Delivered);
    assert!(matches!(a, Action::EmitNotice(_)));
    let (_, a) = checked_step(m, Event::Delivered);
    assert!(matches!(a, Action::Finish(Status::Accept)));
}
