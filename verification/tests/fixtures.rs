//! Whole documents: the parser must get through them and produce events.

use udon_core::{Event, Parser};

const MINIMAL: &[u8] = b"; A minimal document\n|article[intro].lead\n  :lang en\n  Hello, world.\n";

const COMPREHENSIVE: &[u8] = b"; Comprehensive document\n\
|html\n\
  |head\n\
    |title The UDON tour\n\
    |meta :charset utf-8\n\
  |body.page.wide :data-level 3 :ratio 16/9r :scale 1.5 :mask 0xFF\n\
    :[defaults]\n\
    |h1[top] Welcome !{user.name}!\n\
    |p.note? Some prose with an |{em embedded} element and a ';' escape.\n\
    |ul |li |a :href \"/docs\" Read the docs\n\
    |ul\n\
      |li First ; trailing comment\n\
      |li Second @[top]\n\
    !if user.admin\n\
      |button :disabled Delete\n\
      !t{greeting.hello} and !raw:js{alert(\"{}\")}\n\
    !raw:sql\n\
      SELECT *\n\
        FROM users\n\
\n\
      WHERE id = 1\n\
    ```rust\n\
    fn main() {}\n\
    ```\n\
    |table :cols [1 2 [3 4]] :flags [a \"b c\" ~ true]\n\
    :z 3+4i :big 99999999999999999999 :bad 1.2.3\n\
  |footer\n\
\tmixed tabs\n\
'|escaped |{unterminated\n\
|last";

fn balance(events: &[Event<'_>]) -> (i64, i64, i64, i64) {
    let mut element = 0;
    let mut embedded = 0;
    let mut directive = 0;
    let mut freeform = 0;
    for event in events {
        match event {
            Event::ElementStart { .. } => element += 1,
            Event::ElementEnd { .. } => element -= 1,
            Event::EmbeddedStart { .. } => embedded += 1,
            Event::EmbeddedEnd { .. } => embedded -= 1,
            Event::DirectiveStart { .. } => directive += 1,
            Event::DirectiveEnd { .. } => directive -= 1,
            Event::FreeformStart { .. } => freeform += 1,
            Event::FreeformEnd { .. } => freeform -= 1,
            _ => {}
        }
    }
    (element, embedded, directive, freeform)
}

#[test]
fn comprehensive_parses_without_panic() {
    let mut parser = Parser::new(COMPREHENSIVE);
    let events = parser.parse();
    assert!(!events.is_empty(), "Should produce events");
}

#[test]
fn minimal_parses_without_panic() {
    let mut parser = Parser::new(MINIMAL);
    let events = parser.parse();
    assert!(!events.is_empty(), "Should produce events");
}

#[test]
fn comprehensive_is_balanced_and_ordered() {
    let mut parser = Parser::new(COMPREHENSIVE);
    let events = parser.parse();
    assert_eq!(balance(&events), (0, 0, 0, 0));
    let mut last = 0;
    for event in &events {
        let span = event.span();
        assert!(span.start <= span.end);
        assert!(span.end as usize <= COMPREHENSIVE.len());
        assert!(last <= span.start, "{:?} starts before its predecessor", event);
        last = span.start;
    }
}

#[test]
fn parsing_twice_gives_the_same_events() {
    let first = format!("{:?}", Parser::new(COMPREHENSIVE).parse());
    let second = format!("{:?}", Parser::new(COMPREHENSIVE).parse());
    assert_eq!(first, second);
}

#[test]
fn every_prefix_is_balanced() {
    for cut in 0..=COMPREHENSIVE.len() {
        let prefix = &COMPREHENSIVE[..cut];
        let events = Parser::new(prefix).parse();
        assert_eq!(balance(&events), (0, 0, 0, 0), "prefix of {} bytes", cut);
        let mut last = 0;
        for event in &events {
            let span = event.span();
            assert!(span.start <= span.end && span.end as usize <= cut);
            assert!(last <= span.start, "prefix of {} bytes: {:?}", cut, event);
            last = span.start;
        }
    }
}
