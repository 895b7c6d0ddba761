use communicatio::framer::{Framer, encode_frame};

fn seg(bytes: &[u8]) -> Vec<u8> {
    bytes.to_vec()
}

#[test]
fn frame_appends_terminator() {
    let framed = encode_frame(b"abc");
    assert_eq!(framed, b"abc----".to_vec());
}

#[test]
fn empty_payload_frames_to_terminator_alone() {
    let framed = encode_frame(b"");
    assert_eq!(framed, b"----".to_vec());
    let mut f = Framer::new();
    let out = f.push(&framed);
    assert_eq!(out, vec![seg(b"")]);
}

#[test]
fn whole_message_in_one_read() {
    let mut f = Framer::new();
    let out = f.push(b"{\"a\":1}----");
    assert_eq!(out, vec![seg(b"{\"a\":1}")]);
}

#[test]
fn partial_read_waits_for_terminator() {
    let mut f = Framer::new();
    let out = f.push(b"{\"a\"");
    assert!(out.is_empty());
    let out = f.push(b":1}--");
    assert!(out.is_empty());
    let out = f.push(b"--");
    assert_eq!(out, vec![seg(b"{\"a\":1}")]);
}

#[test]
fn fragmented_at_every_offset_yields_one_identical_message() {
    let payload: &[u8] = b"{\"id\":\"x\",\"params\":[],\"topic\":\"t\"}";
    let framed = encode_frame(payload);
    let mut unsplit = Framer::new();
    let reference = unsplit.push(&framed);
    assert_eq!(reference, vec![payload.to_vec()]);
    for cut in 0..=framed.len() {
        let mut f = Framer::new();
        let mut out = f.push(&framed[..cut]);
        out.extend(f.push(&framed[cut..]));
        assert_eq!(out, reference, "split at offset {} diverged", cut);
    }
}

#[test]
fn two_messages_in_one_read_come_out_in_order() {
    let first = encode_frame(b"{\"a\":1}");
    let second = encode_frame(b"{\"b\":2}");
    let mut both = first.clone();
    both.extend(second);
    let mut f = Framer::new();
    let out = f.push(&both);
    assert_eq!(out, vec![seg(b"{\"a\":1}"), seg(b"{\"b\":2}")]);
}

#[test]
fn trailing_remainder_is_held_for_the_next_read() {
    let mut f = Framer::new();
    let out = f.push(b"{\"a\":1}----{\"b\"");
    assert_eq!(out, vec![seg(b"{\"a\":1}")]);
    let out = f.push(b":2}----");
    assert_eq!(out, vec![seg(b"{\"b\":2}")]);
}

#[test]
fn empty_read_emits_nothing() {
    let mut f = Framer::new();
    let out = f.push(b"");
    assert!(out.is_empty());
}

#[test]
fn each_connection_owns_its_own_buffer() {
    let mut a = Framer::new();
    let mut b = Framer::new();
    assert!(a.push(b"{\"a\"").is_empty());
    let out = b.push(b"{\"b\":2}----");
    assert_eq!(out, vec![seg(b"{\"b\":2}")]);
    let out = a.push(b":1}----");
    assert_eq!(out, vec![seg(b"{\"a\":1}")]);
}
