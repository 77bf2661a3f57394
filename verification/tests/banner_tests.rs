use tarssh::banner::{banner, fragment, BANNER, NEWLINE};

#[test]
fn banner_is_the_rhyme() {
    let text = banner();
    assert_eq!(text, BANNER.as_bytes());
    assert_eq!(text.len(), 197);
    assert!(text.starts_with(b"My name is Yon Yonson,\r\n"));
    assert!(text.ends_with(b"I say: "));
    assert_eq!(text.iter().filter(|b| **b == NEWLINE).count(), 8);
}

#[test]
fn first_fragment_is_the_first_line() {
    assert_eq!(fragment(banner(), 0), b"My name is Yon Yonson,\r\n");
}

#[test]
fn fragment_starts_where_the_last_write_stopped() {
    assert_eq!(fragment(banner(), 3), b"name is Yon Yonson,\r\n");
    assert_eq!(fragment(banner(), 23), b"\n");
    assert_eq!(fragment(banner(), 24), b"I live in Wisconsin.\r\n");
}

#[test]
fn fragment_without_newline_runs_to_the_end() {
    let len = banner().len() as u64;
    assert_eq!(fragment(banner(), len - 7), b"I say: ");
    assert_eq!(fragment(banner(), len - 1), b" ");
}

#[test]
fn fragment_is_cyclic() {
    let len = banner().len() as u64;
    for sent in 0..len {
        assert_eq!(fragment(banner(), sent), fragment(banner(), sent + len));
        assert_eq!(fragment(banner(), sent), fragment(banner(), sent + 7 * len));
    }
    assert_eq!(fragment(banner(), len), b"My name is Yon Yonson,\r\n");
}

#[test]
fn fragment_is_idempotent() {
    assert_eq!(fragment(banner(), 40), fragment(banner(), 40));
}

#[test]
fn fragment_holds_at_most_one_line() {
    let text = banner();
    for sent in 0..(2 * text.len() as u64) {
        let frag = fragment(text, sent);
        assert!(!frag.is_empty());
        let inner = &frag[..frag.len() - 1];
        assert!(!inner.contains(&NEWLINE));
        let end = (sent as usize % text.len()) + frag.len();
        assert!(end == text.len() || frag[frag.len() - 1] == NEWLINE);
    }
}

#[test]
fn small_banner_fragments() {
    let text = [65u8, 10, 66];
    assert_eq!(fragment(&text, 0), [65u8, 10]);
    assert_eq!(fragment(&text, 1), [10u8]);
    assert_eq!(fragment(&text, 2), [66u8]);
    assert_eq!(fragment(&text, 3), [65u8, 10]);
    assert_eq!(fragment(&text, 4), [10u8]);
}

#[test]
fn one_byte_banner() {
    assert_eq!(fragment(&[10u8], 0), [10u8]);
    assert_eq!(fragment(&[7u8], 5), [7u8]);
}

#[test]
fn fragment_at_the_largest_count() {
    let text = [65u8, 10, 66];
    // 2^64 - 1 is a multiple of 3.
    assert_eq!(fragment(&text, u64::MAX), [65u8, 10]);
}

fn deliver(text: &[u8], chunk: usize, total: usize) -> Vec<u8> {
    let mut sent: u64 = 0;
    let mut got: Vec<u8> = Vec::new();
    while got.len() < total {
        let frag = fragment(text, sent);
        let take = chunk.min(frag.len()).min(total - got.len());
        got.extend_from_slice(&frag[..take]);
        sent += take as u64;
    }
    got
}

#[test]
fn any_chunking_rebuilds_the_banner() {
    let text = banner();
    let expected: Vec<u8> = text.iter().cycle().take(3 * text.len() + 5).cloned().collect();
    for chunk in [1usize, 2, 3, 5, 7, 32, 1000] {
        assert_eq!(deliver(text, chunk, expected.len()), expected);
    }
}

#[test]
fn full_writes_deliver_line_by_line() {
    let text = banner();
    let mut sent: u64 = 0;
    let mut lines: Vec<Vec<u8>> = Vec::new();
    for _ in 0..9 {
        let frag = fragment(text, sent);
        sent += frag.len() as u64;
        lines.push(frag.to_vec());
    }
    assert_eq!(sent, text.len() as u64);
    assert_eq!(lines[0], b"My name is Yon Yonson,\r\n");
    assert_eq!(lines[5], b"They say \"Hello!\"\r\n");
    assert_eq!(lines[8], b"I say: ");
    assert_eq!(lines.concat(), text);
}
