use docsync::document::Update;
use docsync::{Document, Invite, PeerPermission};

#[test]
fn snapshot_save_load_round_trip() {
    let mut d = Document::new(0x1122334455667788_99aabbccddeeff00, 6);
    d.apply_update(&Update::Name(b"folder".to_vec()));
    d.apply_update(&Update::Path(b"/shared/folder".to_vec()));
    d.apply_update(&Update::Description(b"holiday pictures".to_vec()));
    d.mark_removed();

    let bytes = d.save();
    let back = Document::load(&bytes).unwrap();
    assert_eq!(back, d);
}

#[test]
fn empty_document_round_trips() {
    let d = Document::new(1, 1);
    let back = Document::load(&d.save()).unwrap();
    assert_eq!(back, d);
}

#[test]
fn truncated_snapshot_is_rejected() {
    let d = Document::new(1, 1);
    let mut bytes = d.save();
    bytes.pop();
    assert!(Document::load(&bytes).is_none());
    assert!(Document::load(&Vec::new()).is_none());
}

#[test]
fn trailing_bytes_are_rejected() {
    let d = Document::new(1, 1);
    let mut bytes = d.save();
    bytes.push(0);
    assert!(Document::load(&bytes).is_none());
}

#[test]
fn wrong_format_byte_is_rejected() {
    let d = Document::new(1, 1);
    let mut bytes = d.save();
    bytes[0] = 2;
    assert!(Document::load(&bytes).is_none());
}

#[test]
fn field_stamp_beyond_clock_is_rejected() {
    let mut d = Document::new(1, 1);
    d.apply_update(&Update::Name(b"n".to_vec()));
    let mut bytes = d.save();
    // zero out the clock that the name write advanced
    for i in 25..33 {
        bytes[i] = 0;
    }
    assert!(Document::load(&bytes).is_none());
}

#[test]
fn envelope_round_trips() {
    let inv = Invite {
        id: 0xfeed_f00d,
        data: b"opaque snapshot bytes".to_vec(),
        permission: PeerPermission::ReadWrite,
    };
    let bytes = inv.encode();
    let back = Invite::decode(&bytes).unwrap();
    assert_eq!(back, inv);
}

#[test]
fn envelope_with_unknown_permission_byte_is_rejected() {
    let inv = Invite { id: 1, data: b"x".to_vec(), permission: PeerPermission::Owner };
    let mut bytes = inv.encode();
    assert_eq!(bytes[16], 2);
    bytes[16] = 9;
    assert!(Invite::decode(&bytes).is_none());
    // too short to hold id and permission
    assert!(Invite::decode(&bytes[..16].to_vec()).is_none());
}

#[test]
fn permission_defaults_to_read_only() {
    assert_eq!(PeerPermission::default(), PeerPermission::ReadOnly);
    assert_eq!(PeerPermission::decode(0), Some(PeerPermission::ReadOnly));
    assert_eq!(PeerPermission::decode(1), Some(PeerPermission::ReadWrite));
    assert_eq!(PeerPermission::decode(2), Some(PeerPermission::Owner));
    assert_eq!(PeerPermission::decode(3), None);
}
