use vhdl_lang::{HasSource, HasSrcPos, Position, Range, Source, SrcPos};

fn code(text: &str) -> Source {
    Source::inline_utf8("{unknown file}", text).unwrap()
}

fn find_start(text: &str, substr: &str) -> Position {
    let byte_idx = text.find(substr).unwrap();
    let mut line: u64 = 0;
    let mut ch: u64 = 0;
    for (i, c) in text.char_indices() {
        if i == byte_idx {
            break;
        }
        if c == '\n' {
            line += 1;
            ch = 0;
        } else {
            ch += 1;
        }
    }
    Position::new(line, ch)
}

fn s1(source: &Source, text: &str, substr: &str) -> SrcPos {
    let start = find_start(text, substr);
    let n = substr.chars().count() as u64;
    source.pos(start, Position::new(start.line, start.character + n))
}

fn whole_pos(source: &Source, text: &str) -> SrcPos {
    let n = text.chars().count() as u64;
    source.pos(Position::new(0, 0), Position::new(0, n))
}

fn eof_pos(source: &Source, text: &str) -> SrcPos {
    let mut line: u64 = 0;
    let mut ch: u64 = 0;
    for c in text.chars() {
        if c == '\n' {
            line += 1;
            ch = 0;
        } else {
            ch += 1;
        }
    }
    let p = Position::new(line, ch);
    source.pos(p, Position::new(line, ch + 1))
}

#[test]
fn srcpos_combine() {
    let text = "hello world";
    let source = code(text);

    assert_eq!(
        s1(&source, text, "hello").combine(&s1(&source, text, "world")),
        whole_pos(&source, text)
    );

    assert_eq!(
        s1(&source, text, "h").combine(&s1(&source, text, "d")),
        whole_pos(&source, text)
    );

    assert_eq!(
        s1(&source, text, "d").combine(&s1(&source, text, "h")),
        whole_pos(&source, text)
    );
}

#[test]
fn code_context_pos_from_filename() {
    let text = "hello\nworld\n";
    let source = code(text);
    assert_eq!(
        s1(&source, text, "hello").code_context(),
        "\
1 --> hello
   |  ~~~~~
2  |  world
"
    );
}

#[test]
fn code_context_pos_last_line_without_newline() {
    let text = "hello world";
    let source = code(text);
    assert_eq!(
        s1(&source, text, "hello").code_context(),
        "\
1 --> hello world
   |  ~~~~~
"
    );
}

#[test]
fn code_context_pos_with_indent() {
    let text = "    hello world";
    let source = code(text);
    assert_eq!(
        s1(&source, text, "hello").code_context(),
        "\
1 -->     hello world
   |      ~~~~~
"
    );
}

#[test]
fn code_context_eof() {
    let text = "h";
    let source = code(text);
    assert_eq!(
        eof_pos(&source, text).code_context(),
        "\
1 --> h
   |   ~
",
    );
}

#[test]
fn code_context_eof_empty() {
    let text = "";
    let source = code(text);
    assert_eq!(eof_pos(&source, text).code_context(), "1 --> \n   |  ~\n",);
}

#[test]
fn code_context_with_context() {
    let text = "hello\nworld";
    let source = code(text);
    assert_eq!(
        s1(&source, text, "hello").code_context(),
        "\
1 --> hello
   |  ~~~~~
2  |  world
",
    );
}

#[test]
fn code_context_with_tabs() {
    let text = "\thello\t";
    let source = code(text);
    assert_eq!(
        s1(&source, text, "hello\t").code_context(),
        "\
1 -->     hello
   |      ~~~~~~~~~
",
    );
}

#[test]
fn code_context_non_ascii() {
    let text = "åäö\nåäö\n__å_ä_ö__";
    let source = code(text);
    let substr = s1(&source, text, "å_ä_ö");
    assert_eq!(substr.end().character - substr.start().character, 5);
    assert_eq!(
        substr.code_context(),
        "\
1  |  åäö
2  |  åäö
3 --> __å_ä_ö__
   |    ~~~~~
",
    );
}

#[test]
fn code_context_non_ascii_from_file() {
    let text = "åäö\nåäö\n__å_ä_ö__";
    let source = code(text);
    let substr = s1(&source, text, "å_ä_ö");
    assert_eq!(substr.end().character - substr.start().character, 5);
    assert_eq!(
        substr.code_context(),
        "\
1  |  åäö
2  |  åäö
3 --> __å_ä_ö__
   |    ~~~~~
",
    );
}

#[test]
fn code_context_with_full_context() {
    let text = "\
line1
line2
line3
line4
line5
line6
line7
line8
line9
line10
line11
line12
line13";
    let source = code(text);
    assert_eq!(
        s1(&source, text, "line10").code_context(),
        " \
 8  |  line8
 9  |  line9
10 --> line10
    |  ~~~~~~
11  |  line11
12  |  line12
",
    );
}

#[test]
fn show_from_filename() {
    let text = "hello\nworld\nline\n";
    let source = code(text);
    assert_eq!(
        s1(&source, text, "world").show("Greetings"),
        format!(
            "\
Greetings
  --> {}:2
   |
1  |  hello
2 --> world
   |  ~~~~~
3  |  line
",
            source.file_name()
        )
    );
}

#[test]
fn show_contents() {
    let text = "hello\nworld\nline\n";
    let source = code(text);
    assert_eq!(
        s1(&source, text, "world").show("Greetings"),
        format!(
            "\
Greetings
  --> {}:2
   |
1  |  hello
2 --> world
   |  ~~~~~
3  |  line
",
            source.file_name()
        )
    );
}

fn read_back(source: &Source) -> String {
    let contents = source.contents();
    let mut out = String::new();
    let mut i = 0;
    while i < contents.num_lines() {
        let line = contents.get_line(i).unwrap();
        for b in line.bytes.iter() {
            out.push(*b as char);
        }
        i += 1;
    }
    out
}

#[test]
fn identity_excludes_content() {
    let a = Source::inline_utf8("design.vhd", "entity a is\n").unwrap();
    let b = Source::inline_utf8("design.vhd", "something entirely different").unwrap();
    let c = Source::inline_utf8("other.vhd", "entity a is\n").unwrap();
    assert_eq!(a, b);
    assert_ne!(a, c);
    assert_ne!(b, c);
}

#[test]
fn round_trip_edit_of_sub_range() {
    let original = "hello\nworld\n";
    let mut source = code(original);
    let range = Range::new(Position::new(0, 0), Position::new(0, 5));
    source.change(
        Some(&range),
        &vhdl_lang::Latin1String::new("goodbye".bytes().collect()),
    );
    // Splicing by hand: replace bytes 0..5 of the flat text.
    let expected = format!("goodbye{}", &original[5..]);
    assert_eq!(read_back(&source), expected);
}

#[test]
fn round_trip_edit_across_lines() {
    let original = "one\ntwo\nthree\n";
    let mut source = code(original);
    // From line 0 char 2 (byte 2) to line 2 char 1 (byte 9).
    let range = Range::new(Position::new(0, 2), Position::new(2, 1));
    source.change(
        Some(&range),
        &vhdl_lang::Latin1String::new("X".bytes().collect()),
    );
    let expected = format!("{}X{}", &original[..2], &original[9..]);
    assert_eq!(read_back(&source), expected);
}

#[test]
fn change_whole_content() {
    let mut source = code("hello\nworld\n");
    source.change(None, &vhdl_lang::Latin1String::new("fresh text".bytes().collect()));
    assert_eq!(read_back(&source), "fresh text");
}

#[test]
fn combine_is_order_independent_on_ranges() {
    let text = "hello world";
    let source = code(text);
    let a = s1(&source, text, "llo");
    let b = s1(&source, text, "wor");
    let ab = a.combine(&b);
    let ba = b.combine(&a);
    assert_eq!(ab, ba);
    assert_eq!(ab.start(), Position::new(0, 2));
    assert_eq!(ab.end(), Position::new(0, 9));
}

#[test]
fn inline_utf8_rejects_characters_beyond_latin1() {
    let err = Source::inline_utf8("f.vhd", "ab\u{0394}cd").unwrap_err();
    assert_eq!(err.index, 2);
    assert_eq!(err.value, '\u{0394}');
}

#[test]
fn positions_order_and_steps() {
    let p = Position::new(1, 4);
    assert!(Position::new(1, 3) < p);
    assert!(p < Position::new(2, 0));
    assert_eq!(p.next_char(), Position::new(1, 5));
    assert_eq!(p.prev_char(), Position::new(1, 3));
    assert_eq!(Position::new(0, 0).prev_char(), Position::new(0, 0));
    let r = p.range_to(Position::new(2, 1));
    assert_eq!(r, Range::new(Position::new(1, 4), Position::new(2, 1)));
}

#[test]
fn with_pos_keeps_span_through_map() {
    let text = "hello world";
    let source = code(text);
    let pos = s1(&source, text, "hello");
    let w = vhdl_lang::WithPos::new(5u64, &pos);
    let mapped = w.map_into(|n| n + 1);
    assert_eq!(mapped.item, 6);
    assert_eq!(mapped.pos, pos);
}

#[test]
fn try_map_into_ok_and_err() {
    let text = "hello world";
    let source = code(text);
    let pos = s1(&source, text, "world");
    let ok = vhdl_lang::WithPos::new(2u64, &pos).try_map_into(|n| Ok::<u64, String>(n * 10));
    let ok = ok.unwrap();
    assert_eq!(ok.item, 20);
    assert_eq!(ok.pos, pos);

    let err = vhdl_lang::WithPos::new(2u64, &pos)
        .try_map_into(|_| Err::<u64, String>(String::from("not a number")))
        .unwrap_err();
    assert_eq!(err.message, "not a number");
    assert_eq!(err.pos, pos);
    assert!(err.related.is_none());
}

#[test]
fn combine_pos_with_widens_the_span() {
    let text = "hello world";
    let source = code(text);
    let a = s1(&source, text, "hello");
    let b = s1(&source, text, "world");
    let w = vhdl_lang::WithPos::new(1u64, &a).combine_pos_with(&b);
    assert_eq!(w.pos, whole_pos(&source, text));
}

#[test]
fn has_source_and_has_srcpos() {
    let text = "hello";
    let source = code(text);
    let pos = s1(&source, text, "hello");
    assert_eq!(pos.pos(), &pos);
    assert_eq!(pos.source(), &source);
    let w = vhdl_lang::WithPos::new(0u64, &pos);
    assert_eq!(w.source(), &source);
    assert_eq!(source.source(), &source);
}

#[test]
fn show_renders_message_for_wide_line_numbers() {
    // Eleven lines: the pointer line and gutters align to a two-digit width.
    let text = "a\nb\nc\nd\ne\nf\ng\nh\ni\nj\ntarget line\n";
    let source = code(text);
    let rendered = s1(&source, text, "target").show("Oops");
    assert_eq!(
        rendered,
        format!(
            "\
Oops
   --> {}:11
    |
 9  |  i
10  |  j
11 --> target line
    |  ~~~~~~
",
            source.file_name()
        )
    );
}

#[test]
fn edit_can_delete_and_can_add_lines() {
    // Deleting a sub-range.
    let mut source = code("abcdef");
    let range = Range::new(Position::new(0, 1), Position::new(0, 4));
    source.change(Some(&range), &vhdl_lang::Latin1String::new(Vec::new()));
    assert_eq!(read_back(&source), "aef");

    // Inserting a line break re-splits the line table.
    let mut source = code("ab");
    let range = Range::new(Position::new(0, 1), Position::new(0, 1));
    source.change(
        Some(&range),
        &vhdl_lang::Latin1String::new("\nX\n".bytes().collect()),
    );
    assert_eq!(read_back(&source), "a\nX\nb");
    assert_eq!(source.contents().num_lines(), 3);
}
