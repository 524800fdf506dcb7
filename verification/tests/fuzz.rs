//! Generated inputs: whatever the bytes, the parser returns, its spans lie
//! inside the buffer in document order, and its start and end events
//! balance.

use udon_core::{Event, Parser};

/// A small deterministic generator (xorshift).
struct Rng(u64);

impl Rng {
    fn next(&mut self) -> u64 {
        let mut x = self.0;
        x ^= x << 13;
        x ^= x >> 7;
        x ^= x << 17;
        self.0 = x;
        x
    }

    fn below(&mut self, n: usize) -> usize {
        (self.next() % n as u64) as usize
    }
}

fn check(input: &[u8]) {
    let events = Parser::new(input).parse();
    let mut depth = [0i64; 4];
    let mut last = 0u32;
    for event in &events {
        let span = event.span();
        assert!(span.start <= span.end, "{:?} in {:?}", event, input);
        assert!(span.end as usize <= input.len(), "{:?} in {:?}", event, input);
        assert!(last <= span.start, "{:?} out of order in {:?}", event, input);
        last = span.start;
        match event {
            Event::ElementStart { .. } => depth[0] += 1,
            Event::ElementEnd { .. } => depth[0] -= 1,
            Event::EmbeddedStart { .. } => depth[1] += 1,
            Event::EmbeddedEnd { .. } => depth[1] -= 1,
            Event::DirectiveStart { .. } => depth[2] += 1,
            Event::DirectiveEnd { .. } => depth[2] -= 1,
            Event::FreeformStart { .. } => depth[3] += 1,
            Event::FreeformEnd { .. } => depth[3] -= 1,
            _ => {}
        }
        for d in depth {
            assert!(d >= 0, "an end before its start in {:?}", input);
        }
    }
    assert_eq!(depth, [0; 4], "unbalanced events for {:?}", input);
    let again = Parser::new(input).parse();
    assert_eq!(format!("{:?}", events), format!("{:?}", again));
}

#[test]
fn random_ascii() {
    let mut rng = Rng(0x2545_F491_4F6C_DD1D);
    for _ in 0..400 {
        let len = rng.below(120);
        let input: Vec<u8> = (0..len).map(|_| rng.below(128) as u8).collect();
        check(&input);
    }
}

#[test]
fn random_bytes() {
    let mut rng = Rng(0x9E37_79B9_7F4A_7C15);
    for _ in 0..300 {
        let len = rng.below(80);
        let input: Vec<u8> = (0..len).map(|_| rng.below(256) as u8).collect();
        check(&input);
    }
}

#[test]
fn random_structure() {
    let pieces: [&[u8]; 40] = [
        b"|", b"|a", b"|b.c", b"|d[e]", b"|{", b"}", b"{", b"!", b"!f", b"!raw:g", b"!{", b"!h{",
        b":", b":k", b":[m]", b":[", b";", b"'", b"@[", b"@[n]", b"]", b"[", b"\"", b"\\", b"```",
        b"\n", b"\n", b"\n ", b"\n  ", b"\n\t", b"\n    ", b" ", b"  ", b"\t", b"x", b"42", b"1.5",
        b"3/4r", b"2+3i", b"~",
    ];
    let mut rng = Rng(0xD1B5_4A32_D192_ED03);
    for _ in 0..600 {
        let count = rng.below(30);
        let mut input = Vec::new();
        for _ in 0..count {
            input.extend_from_slice(pieces[rng.below(pieces.len())]);
        }
        check(&input);
    }
}

#[test]
fn arbitrary_indent_mixes() {
    let indents: [&[u8]; 8] = [b"", b" ", b"  ", b"\t", b" \t", b"\t ", b"    ", b"\t\t"];
    let lines: [&[u8]; 6] = [b"|a", b"!if x", b"text", b":k v", b"", b"|b |c"];
    let mut rng = Rng(0x0123_4567_89AB_CDEF);
    for _ in 0..500 {
        let count = rng.below(12);
        let mut input = Vec::new();
        for _ in 0..count {
            input.extend_from_slice(indents[rng.below(indents.len())]);
            input.extend_from_slice(lines[rng.below(lines.len())]);
            input.push(b'\n');
        }
        check(&input);
    }
}

#[test]
fn every_prefix_of_a_document() {
    let document: &[u8] =
        b"|a[1].b? :k \"v\" text |{em x} !{y}\n  !if z\n    |c |d\n  !raw:t\n    r\n```\nf\n```\n";
    for cut in 0..=document.len() {
        check(&document[..cut]);
    }
}

#[test]
fn deep_nesting() {
    let mut input = Vec::new();
    for depth in 0..200 {
        for _ in 0..depth {
            input.push(b' ');
        }
        input.extend_from_slice(b"|e\n");
    }
    check(&input);
    let events = Parser::new(&input).parse();
    assert_eq!(events.len(), 400);

    let mut list = b"|x :k ".to_vec();
    list.extend(std::iter::repeat(b'[').take(200));
    list.extend(std::iter::repeat(b']').take(200));
    check(&list);

    let mut embedded = Vec::new();
    for _ in 0..100 {
        embedded.extend_from_slice(b"|{a ");
    }
    embedded.extend(std::iter::repeat(b'}').take(100));
    check(&embedded);
}
