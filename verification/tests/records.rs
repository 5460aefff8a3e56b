use bells_indexer::partials::{Part, Partials};
use bells_indexer::records::{AddressStat, Partial};
use bells_indexer::token_tick::LowerCaseTokenTick;

#[test]
fn partials_layout() {
    let p = Partials {
        inscription_index: 2,
        genesis_txid: [0xabu8; 32],
        parts: vec![
            Part { is_tapscript: true, script_buffer: vec![] },
            Part { is_tapscript: false, script_buffer: vec![] },
        ],
    };
    let bytes = p.get_bytes();
    let mut expected = vec![0, 0, 0, 2];
    expected.extend([0xabu8; 32]);
    expected.extend([1, 0, 0, 0, 0]);
    expected.extend([0, 0, 0, 0, 0]);
    assert_eq!(bytes, expected);
}

#[test]
fn partials_roundtrip_with_empty_scripts() {
    let p = Partials {
        inscription_index: 7,
        genesis_txid: [3u8; 32],
        parts: vec![
            Part { is_tapscript: false, script_buffer: vec![] },
            Part { is_tapscript: true, script_buffer: vec![] },
        ],
    };
    let back = Partials::from_bytes(&p.get_bytes()).unwrap();
    assert_eq!(back.inscription_index, 7);
    assert_eq!(back.genesis_txid, [3u8; 32]);
    assert_eq!(back.parts.len(), 2);
    assert!(!back.parts[0].is_tapscript);
    assert!(back.parts[1].is_tapscript);
    assert!(back.parts.iter().all(|x| x.script_buffer.is_empty()));
}

#[test]
fn partials_reader_resumes_at_script_start() {
    // one tapscript part whose script is five zero bytes
    let p = Partials {
        inscription_index: 1,
        genesis_txid: [0u8; 32],
        parts: vec![Part { is_tapscript: true, script_buffer: vec![0, 0, 0, 0, 0] }],
    };
    let bytes = p.get_bytes();
    assert_eq!(bytes.len(), 36 + 5 + 5);
    let back = Partials::from_bytes(&bytes).unwrap();
    // the script's bytes are read once more as a (non-tapscript, empty) part
    assert_eq!(back.parts.len(), 2);
    assert!(back.parts[0].is_tapscript);
    assert_eq!(back.parts[0].script_buffer, vec![0, 0, 0, 0, 0]);
    assert!(!back.parts[1].is_tapscript);
    assert!(back.parts[1].script_buffer.is_empty());
}

#[test]
fn partials_flag_byte_other_than_one_reads_as_false() {
    let mut bytes = vec![0, 0, 0, 0];
    bytes.extend([1u8; 32]);
    bytes.extend([2, 0, 0, 0, 0]);
    let back = Partials::from_bytes(&bytes).unwrap();
    assert_eq!(back.parts.len(), 1);
    assert!(!back.parts[0].is_tapscript);
}

#[test]
fn partial_default_is_empty() {
    let p = Partial::default();
    assert_eq!(p.total_fee, 0);
    assert_eq!(p.inscription_idx, 0);
    assert!(p.outpoints.is_empty());
    let s = AddressStat { amount: 1, count: 2, total: 3 };
    let t = s;
    assert_eq!(s, t);
}

#[test]
fn token_tick_is_lowercased() {
    let t = LowerCaseTokenTick::from(b"ORDI");
    assert_eq!(t.0, b"ordi".to_vec());
    assert_eq!(*t, b"ordi".to_vec());
    let u = LowerCaseTokenTick::from("ÄBC".as_bytes());
    assert_eq!(u.0, "äbc".as_bytes().to_vec());
}

#[test]
fn token_tick_replaces_invalid_utf8() {
    let t = LowerCaseTokenTick::from(&[0x41, 0xff]);
    assert_eq!(t.0, "a\u{fffd}".as_bytes().to_vec());
}

#[test]
fn token_tick_from_lowercase_keeps_text() {
    let t = LowerCaseTokenTick::from_lowercase("doge");
    assert_eq!(t.0, b"doge".to_vec());
    assert_eq!(t, LowerCaseTokenTick::from(b"DoGe"));
}

#[test]
fn partials_readable_matches_reader_domain() {
    let p = Partials {
        inscription_index: 1,
        genesis_txid: [0u8; 32],
        parts: vec![Part { is_tapscript: true, script_buffer: vec![] }],
    };
    assert!(Partials::readable(&p.get_bytes()));
    assert!(!Partials::readable(&[0u8; 35]));
    let mut short = p.get_bytes();
    short.pop();
    assert!(!Partials::readable(&short));
    let q = Partials {
        inscription_index: 1,
        genesis_txid: [0u8; 32],
        parts: vec![Part { is_tapscript: true, script_buffer: vec![0x51] }],
    };
    // the reader would take the script byte as the start of another part and run past the end
    assert!(!Partials::readable(&q.get_bytes()));
}
