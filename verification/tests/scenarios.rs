//! Whole inputs and the exact events they yield, spans included.

use udon_core::{Event, Parser, Value};

fn text(bytes: &[u8]) -> String {
    String::from_utf8_lossy(bytes).into_owned()
}

fn opt(bytes: &Option<&[u8]>) -> String {
    match bytes {
        Some(b) => text(b),
        None => "-".to_string(),
    }
}

fn value(v: &Option<Value<'_>>) -> String {
    match v {
        None => "-".to_string(),
        Some(Value::String(s)) => format!("s:{}", text(s)),
        Some(Value::QuotedString(s)) => format!("q:{}", text(s)),
        Some(Value::Integer(i)) => format!("i:{}", i),
        Some(other) => format!("{:?}", other),
    }
}

fn classes(list: &[&[u8]]) -> String {
    list.iter().map(|c| text(c)).collect::<Vec<_>>().join(".")
}

/// One line per event: kind, payload, span.
fn show(event: &Event<'_>) -> String {
    let span = event.span();
    let at = format!("@{}..{}", span.start, span.end);
    match event {
        Event::ElementStart { name, id, classes: c, suffix, .. } => format!(
            "start {} [{}] .{} {} {}",
            opt(name),
            value(id),
            classes(c),
            suffix.map(|c| c.to_string()).unwrap_or("-".to_string()),
            at
        ),
        Event::ElementEnd { .. } => format!("end {}", at),
        Event::Attribute { key, value: v, .. } => format!("attr {} {} {}", text(key), value(v), at),
        Event::EmbeddedStart { name, id, classes: c, .. } => {
            format!("embed {} [{}] .{} {}", opt(name), value(id), classes(c), at)
        }
        Event::EmbeddedEnd { .. } => format!("embed-end {}", at),
        Event::DirectiveStart { name, namespace, is_raw, .. } => {
            format!("directive {}:{} raw={} {}", opt(namespace), text(name), is_raw, at)
        }
        Event::DirectiveEnd { .. } => format!("directive-end {}", at),
        Event::InlineDirective { name, namespace, is_raw, content, .. } => format!(
            "inline {}:{} raw={} {{{}}} {}",
            opt(namespace),
            text(name),
            is_raw,
            text(content),
            at
        ),
        Event::Interpolation { expression, .. } => format!("interp {{{}}} {}", text(expression), at),
        Event::Text { content, .. } => format!("text {:?} {}", text(content), at),
        Event::RawContent { content, .. } => format!("raw {:?} {}", text(content), at),
        Event::Comment { content, .. } => format!("comment {:?} {}", text(content), at),
        Event::IdReference { id, .. } => format!("ref {} {}", text(id), at),
        Event::AttributeMerge { id, .. } => format!("merge {} {}", text(id), at),
        Event::FreeformStart { .. } => format!("freeform {}", at),
        Event::FreeformEnd { .. } => format!("freeform-end {}", at),
        Event::Error { message, .. } => format!("error {:?} {}", message, at),
    }
}

fn parse(input: &[u8]) -> Vec<String> {
    Parser::new(input).parse().iter().map(show).collect()
}

fn expect(input: &[u8], expected: &[&str]) {
    let got = parse(input);
    let want: Vec<String> = expected.iter().map(|s| s.to_string()).collect();
    assert_eq!(got, want, "input {:?}", text(input));
}

#[test]
fn comment_line() {
    expect(b"; hello\n", &["comment \" hello\" @0..7"]);
}

#[test]
fn element_with_everything() {
    expect(
        b"|div[main].container.wide?\n",
        &["start div [s:main] .container.wide ? @0..26", "end @27..27"],
    );
}

#[test]
fn element_suffixes() {
    expect(b"|a?\n", &["start a [-] . ? @0..3", "end @4..4"]);
    expect(b"|a!\n", &["start a [-] . ! @0..3", "end @4..4"]);
    expect(b"|a*\n", &["start a [-] . * @0..3", "end @4..4"]);
    expect(b"|a+\n", &["start a [-] . + @0..3", "end @4..4"]);
}

#[test]
fn typed_and_quoted_ids() {
    expect(b"|row[42]\n", &["start row [i:42] . - @0..8", "end @9..9"]);
    expect(b"|row[\"a b\"]\n", &["start row [q:a b] . - @0..11", "end @12..12"]);
}

#[test]
fn bare_bar_is_an_anonymous_element() {
    expect(b"| text\n", &["start - [-] . - @0..1", "text \"text\" @2..6", "end @7..7"]);
    expect(b"|\n", &["start - [-] . - @0..1", "end @2..2"]);
}

#[test]
fn rightward_nesting_closes_at_the_line_end() {
    expect(
        b"|a |b |c\n  |d\n",
        &[
            "start a [-] . - @0..2",
            "start b [-] . - @3..5",
            "start c [-] . - @6..8",
            "end @8..8",
            "end @8..8",
            "start d [-] . - @11..13",
            "end @14..14",
            "end @14..14",
        ],
    );
}

#[test]
fn attributes_inline_and_on_child_lines() {
    expect(
        b"|a :x 1 :flag\n  :y \"two\"\n  :[base]\n",
        &[
            "start a [-] . - @0..2",
            "attr x i:1 @3..7",
            "attr flag - @8..13",
            "attr y q:two @16..24",
            "merge base @27..34",
            "end @35..35",
        ],
    );
}

#[test]
fn dedent_closes_before_the_next_start() {
    expect(
        b"|a\n  |b\n    |c\n|d\n",
        &[
            "start a [-] . - @0..2",
            "start b [-] . - @5..7",
            "start c [-] . - @12..14",
            "end @15..15",
            "end @15..15",
            "end @15..15",
            "start d [-] . - @15..17",
            "end @18..18",
        ],
    );
}

#[test]
fn one_column_deeper_nests() {
    expect(
        b"|a\n |b\n  |c\n |d\n",
        &[
            "start a [-] . - @0..2",
            "start b [-] . - @4..6",
            "start c [-] . - @9..11",
            "end @13..13",
            "end @13..13",
            "start d [-] . - @13..15",
            "end @16..16",
            "end @16..16",
        ],
    );
}

#[test]
fn no_trailing_newline_still_closes_frames() {
    expect(
        b"|a\n  |b\n    text",
        &[
            "start a [-] . - @0..2",
            "start b [-] . - @5..7",
            "text \"text\" @12..16",
            "end @16..16",
            "end @16..16",
        ],
    );
    expect(b"!if x", &["directive -:if raw=false @0..3", "text \"x\" @4..5", "directive-end @5..5"]);
}

#[test]
fn whitespace_only_input_has_no_events() {
    expect(b"", &[]);
    expect(b"   ", &[]);
    expect(b"\t", &[]);
    expect(b"\n\n\n", &[]);
    expect(b"  \n\t\n   \t  \n ", &[]);
}

#[test]
fn blank_lines_do_not_close_frames() {
    expect(
        b"|a\n\n  \n  |b\n",
        &[
            "start a [-] . - @0..2",
            "start b [-] . - @9..11",
            "end @12..12",
            "end @12..12",
        ],
    );
}

#[test]
fn tabs_and_spaces_are_compared_byte_by_byte() {
    expect(
        b"|a\n\t|b\n\t\t|c\n",
        &[
            "start a [-] . - @0..2",
            "start b [-] . - @4..6",
            "start c [-] . - @9..11",
            "end @12..12",
            "end @12..12",
            "end @12..12",
        ],
    );
    expect(
        b"|a\n\t|b\n  |c\n",
        &[
            "start a [-] . - @0..2",
            "start b [-] . - @4..6",
            "error \"inconsistent indentation\" @7..9",
            "end @9..9",
            "start c [-] . - @9..11",
            "end @12..12",
            "end @12..12",
        ],
    );
}

#[test]
fn block_directive_with_inline_content() {
    expect(
        b"!if user\n  |div Welcome\n",
        &[
            "directive -:if raw=false @0..3",
            "text \"user\" @4..8",
            "start div [-] . - @11..15",
            "text \"Welcome\" @16..23",
            "end @24..24",
            "directive-end @24..24",
        ],
    );
    expect(
        b"!i18n:t\n|p\n",
        &[
            "directive i18n:t raw=false @0..7",
            "directive-end @8..8",
            "start p [-] . - @8..10",
            "end @11..11",
        ],
    );
}

#[test]
fn raw_directive_captures_its_body() {
    expect(
        b"!raw:sql\n  SELECT * FROM users\n",
        &[
            "directive raw:sql raw=true @0..8",
            "raw \"SELECT * FROM users\\n\" @11..31",
            "directive-end @31..31",
        ],
    );
    expect(
        b"!raw:sql ignored\n  SELECT *\n    FROM t\n\n  WHERE 1\n\n|next\n",
        &[
            "directive raw:sql raw=true @0..8",
            "raw \"SELECT *\\n    FROM t\\n\\n  WHERE 1\\n\" @19..50",
            "directive-end @50..50",
            "start next [-] . - @51..56",
            "end @57..57",
        ],
    );
    expect(
        b"!raw:x\nnot a body\n",
        &[
            "directive raw:x raw=true @0..6",
            "directive-end @6..6",
            "text \"not a body\" @7..17",
        ],
    );
}

#[test]
fn raw_body_does_not_scan_inline_constructs() {
    expect(
        b"|a\n  !raw:t\n    |b !{x} ; y\n  |c\n",
        &[
            "start a [-] . - @0..2",
            "directive raw:t raw=true @5..11",
            "raw \"|b !{x} ; y\\n\" @16..28",
            "directive-end @28..28",
            "start c [-] . - @30..32",
            "end @33..33",
            "end @33..33",
        ],
    );
}

#[test]
fn freeform_block() {
    expect(
        b"```js\nlet x = 1;\n  |y\n```\nafter\n",
        &[
            "freeform @0..5",
            "raw \"let x = 1;\\n  |y\\n\" @6..22",
            "freeform-end @22..25",
            "text \"after\" @26..31",
        ],
    );
    expect(b"```\n```\n", &["freeform @0..3", "freeform-end @4..7"]);
    expect(
        b"```\nnever closed",
        &["freeform @0..3", "raw \"never closed\" @4..16", "freeform-end @16..16"],
    );
}

#[test]
fn freeform_is_immune_to_dedent() {
    expect(
        b"|a\n  ```\nflush left\n  ```\n  |b\n",
        &[
            "start a [-] . - @0..2",
            "freeform @5..8",
            "raw \"flush left\\n\" @9..20",
            "freeform-end @22..25",
            "start b [-] . - @28..30",
            "end @31..31",
            "end @31..31",
        ],
    );
}

#[test]
fn interpolation_in_text() {
    expect(
        b"Hello !{user.name}!\n",
        &["text \"Hello \" @0..6", "interp {user.name} @6..18", "text \"!\" @18..19"],
    );
    expect(
        b"!{a {b} \"}\" c}\n",
        &["interp {a {b} \"}\" c} @0..14"],
    );
}

#[test]
fn inline_directives() {
    expect(
        b"see !t{hello} and !raw:js{a{b}c}\n",
        &[
            "text \"see \" @0..4",
            "inline -:t raw=false {hello} @4..13",
            "text \" and \" @13..18",
            "inline raw:js raw=true {a{b}c} @18..32",
        ],
    );
    expect(b"wow !important\n", &["text \"wow !important\" @0..14"]);
}

#[test]
fn embedded_elements_nest() {
    expect(
        b"a |{em b |{i c} d} e\n",
        &[
            "text \"a \" @0..2",
            "embed em [-] . @2..6",
            "text \"b \" @7..9",
            "embed i [-] . @9..12",
            "text \"c\" @13..14",
            "embed-end @14..15",
            "text \" d\" @15..17",
            "embed-end @17..18",
            "text \" e\" @18..20",
        ],
    );
    expect(
        b"|{a[x].k}\n",
        &["embed a [s:x] .k @0..8", "embed-end @8..9"],
    );
}

#[test]
fn unterminated_inline_constructs_become_text() {
    expect(
        b"a !{b\nc\n",
        &[
            "text \"a \" @0..2",
            "error \"unterminated inline construct\" @2..5",
            "text \"!{b\" @2..5",
            "text \"c\" @6..7",
        ],
    );
    expect(
        b"|{em open\n",
        &["error \"unterminated inline construct\" @0..9", "text \"|{em open\" @0..9"],
    );
    expect(
        b"!t{open\n",
        &["error \"unterminated inline construct\" @0..7", "text \"!t{open\" @0..7"],
    );
}

#[test]
fn id_references() {
    expect(b"@[top]\n", &["ref top @0..6"]);
    expect(
        b"see @[a-1] and @[bad\n",
        &[
            "text \"see \" @0..4",
            "ref a-1 @4..10",
            "text \" and \" @10..15",
            "error \"missing closing bracket\" @15..20",
            "text \"@[bad\" @15..20",
        ],
    );
}

#[test]
fn escapes() {
    expect(b"'|not-an-element\n", &["text \"|not-an-element\" @1..16"]);
    expect(b"':not-an-attribute\n", &["text \":not-an-attribute\" @1..18"]);
    expect(b"';not-a-comment\n", &["text \";not-a-comment\" @1..15"]);
    expect(b"''literal apostrophe\n", &["text \"'literal apostrophe\" @1..20"]);
    expect(b"don't stop\n", &["text \"don't stop\" @0..10"]);
    expect(b"a ';b\n", &["text \"a \" @0..2", "text \";b\" @3..5"]);
}

#[test]
fn header_errors() {
    expect(
        b"|div[a b] x\n",
        &[
            "start div [s:a] . - @0..6",
            "error \"missing closing bracket\" @6..6",
            "text \"b] x\" @7..11",
            "end @12..12",
        ],
    );
    expect(
        b"|div.9 y\n",
        &[
            "start div [-] . - @0..6",
            "error \"malformed element header\" @5..6",
            "text \"y\" @7..8",
            "end @9..9",
        ],
    );
    expect(
        b"|div% z\n",
        &[
            "start div [-] . - @0..5",
            "error \"unknown suffix\" @4..5",
            "text \"z\" @6..7",
            "end @8..8",
        ],
    );
    expect(
        b"|%\n",
        &["start - [-] . - @0..2", "error \"malformed element header\" @1..2", "end @3..3"],
    );
    expect(
        b"|a?b\n",
        &["start a [-] . ? @0..4", "error \"unexpected character\" @3..4", "end @5..5"],
    );
    expect(
        b"|[] e\n",
        &[
            "start - [-] . - @0..3",
            "error \"unexpected character\" @2..3",
            "text \"e\" @4..5",
            "end @6..6",
        ],
    );
}

#[test]
fn attribute_errors() {
    expect(b":[bad\n", &["error \"missing closing bracket\" @0..5"]);
    expect(
        b": oops\n",
        &["error \"unexpected character\" @0..1", "text \"oops\" @2..6"],
    );
}

#[test]
fn errors_do_not_stop_the_parse() {
    let events = Parser::new(b"|a% :n 1.2.3\n|b[x\n|c\n").parse();
    let errors = events.iter().filter(|e| e.is_error()).count();
    assert_eq!(errors, 3);
    assert!(matches!(events.last(), Some(Event::ElementEnd { .. })));
    let names: Vec<String> = events
        .iter()
        .filter_map(|e| match e {
            Event::ElementStart { name: Some(n), .. } => Some(text(n)),
            _ => None,
        })
        .collect();
    assert_eq!(names, vec!["a", "b", "c"]);
}

#[test]
fn spans_slice_the_payload() {
    let input = b"|p Hello !{name} ; bye\n";
    for event in Parser::new(input).parse() {
        let span = event.span();
        let bytes = &input[span.start as usize..span.end as usize];
        match event {
            Event::Text { content, .. } => assert_eq!(content, bytes),
            Event::Interpolation { expression, .. } => {
                assert_eq!(expression, &bytes[2..bytes.len() - 1])
            }
            Event::Comment { content, .. } => assert_eq!(content, &bytes[1..]),
            _ => {}
        }
    }
}
