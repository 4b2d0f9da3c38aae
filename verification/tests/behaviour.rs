use tree_formatter::{
    ContextFormat, ItemPrefixFormat, Sink, TreeDisplay, TreeFormatter, WriteFailure,
};

/// A sink that takes a fixed number of pieces and refuses the rest.
struct Limited {
    text: String,
    pieces_left: usize,
}

impl Limited {
    fn new(pieces: usize) -> Self {
        Limited { text: String::new(), pieces_left: pieces }
    }
}

impl Sink for Limited {
    fn write_str(&mut self, s: &str) -> Result<(), WriteFailure> {
        if self.pieces_left == 0 {
            return Err(WriteFailure);
        }
        self.pieces_left -= 1;
        self.text.push_str(s);
        Ok(())
    }
}

/// A sink that refuses one piece, the one with the given number, and takes
/// all the others.
struct Hiccup {
    text: String,
    pieces_seen: usize,
    refused: usize,
}

impl Hiccup {
    fn new(refused: usize) -> Self {
        Hiccup { text: String::new(), pieces_seen: 0, refused }
    }
}

impl Sink for Hiccup {
    fn write_str(&mut self, s: &str) -> Result<(), WriteFailure> {
        let number = self.pieces_seen;
        self.pieces_seen += 1;
        if number == self.refused {
            return Err(WriteFailure);
        }
        self.text.push_str(s);
        Ok(())
    }
}

/// A directory with the entries in it.
struct Dir {
    name: &'static str,
    entries: Vec<Dir>,
}

impl Dir {
    fn leaf(name: &'static str) -> Dir {
        Dir { name, entries: Vec::new() }
    }

    fn draw<W: Sink>(
        &self,
        is_last: bool,
        tf: &mut TreeFormatter<'_, W>,
    ) -> Result<(), WriteFailure> {
        tf.write(is_last, self.name)?;
        if !self.entries.is_empty() {
            tf.begin_level(is_last);
            let count = self.entries.len();
            for (at, entry) in self.entries.iter().enumerate() {
                entry.draw(at + 1 == count, tf)?;
            }
            tf.end_level();
        }
        Ok(())
    }
}

impl TreeDisplay for Dir {
    fn fmt<W: Sink>(&self, tf: &mut TreeFormatter<'_, W>) -> Result<(), WriteFailure> {
        tf.begin_level(true);
        let count = self.entries.len();
        for (at, entry) in self.entries.iter().enumerate() {
            entry.draw(at + 1 == count, tf)?;
        }
        tf.end_level();
        Ok(())
    }
}

fn strings(items: &[&str]) -> Vec<String> {
    items.iter().map(|item| item.to_string()).collect()
}

#[test]
fn flat_level_of_two_siblings() {
    let mut buf = String::new();
    let mut tf = TreeFormatter::new("R", &mut buf).unwrap();
    tf.begin_level(true);
    tf.write(false, "A").unwrap();
    tf.write(true, "B").unwrap();
    tf.end_level();
    assert_eq!(buf, "R\n├── A\n└── B\n");
}

#[test]
fn nested_level_under_a_sibling_that_is_not_last() {
    let mut buf = String::new();
    let mut tf = TreeFormatter::new("R", &mut buf).unwrap();
    tf.begin_level(true);
    tf.write(false, "A").unwrap();
    tf.begin_level(false);
    tf.write(false, "X").unwrap();
    tf.write(true, "Y").unwrap();
    tf.end_level();
    tf.write(true, "B").unwrap();
    tf.end_level();
    assert_eq!(buf, "R\n├── A\n│   ├── X\n│   └── Y\n└── B\n");
}

#[test]
fn nested_level_under_the_last_sibling_draws_blanks() {
    let mut buf = String::new();
    let mut tf = TreeFormatter::new("R", &mut buf).unwrap();
    tf.begin_level(true);
    tf.write(true, "A").unwrap();
    tf.begin_level(true);
    tf.write(false, "X").unwrap();
    tf.begin_level(false);
    tf.write(true, "P").unwrap();
    tf.end_level();
    tf.write(true, "Y").unwrap();
    tf.end_level();
    tf.end_level();
    assert_eq!(buf, "R\n└── A\n    ├── X\n    │   └── P\n    └── Y\n");
}

#[test]
fn one_continuation_glyph_for_each_unfinished_ancestor() {
    let mut buf = String::new();
    let mut tf = TreeFormatter::new("R", &mut buf).unwrap();
    tf.context_format(ContextFormat::new(".", "|"));
    tf.prefix_format(ItemPrefixFormat::new("+", "`"));
    tf.begin_level(true);
    tf.write(false, "a").unwrap();
    tf.begin_level(false);
    tf.write(true, "b").unwrap();
    tf.begin_level(true);
    tf.write(false, "c").unwrap();
    tf.begin_level(false);
    tf.write(false, "d").unwrap();
    tf.end_level();
    tf.end_level();
    tf.end_level();
    tf.write(false, "e").unwrap();
    assert_eq!(buf, "R\n+a\n|`b\n|.+c\n|.|+d\n+e\n");
}

#[test]
fn write_level_without_items_writes_nothing() {
    let mut buf = String::new();
    let mut tf = TreeFormatter::new("R", &mut buf).unwrap();
    tf.begin_level(true);
    tf.write(true, "A").unwrap();
    tf.write_level(true, &[]).unwrap();
    tf.write(true, "B").unwrap();
    assert_eq!(buf, "R\n└── A\n└── B\n");
}

#[test]
fn write_level_with_one_item_marks_it_last() {
    let mut buf = String::new();
    let mut tf = TreeFormatter::new("R", &mut buf).unwrap();
    tf.write_level(true, &strings(&["only"])).unwrap();
    assert_eq!(buf, "R\n└── only\n");
}

#[test]
fn write_level_marks_only_the_final_item_last() {
    let mut buf = String::new();
    let mut tf = TreeFormatter::new("R", &mut buf).unwrap();
    tf.begin_level(true);
    tf.write(false, "A").unwrap();
    tf.write_level(false, &strings(&["x", "y", "z"])).unwrap();
    tf.write(true, "B").unwrap();
    tf.end_level();
    assert_eq!(buf, "R\n├── A\n│   ├── x\n│   ├── y\n│   └── z\n└── B\n");
}

#[test]
fn write_level_closes_the_level_it_opened() {
    let mut buf = String::new();
    let mut tf = TreeFormatter::new("R", &mut buf).unwrap();
    tf.begin_level(true);
    tf.write(true, "A").unwrap();
    tf.write_level(true, &strings(&["x", "y"])).unwrap();
    tf.write_level(false, &strings(&["z"])).unwrap();
    assert_eq!(buf, "R\n└── A\n    ├── x\n    └── y\n│   └── z\n");
}

#[test]
fn root_line_is_label_and_title_only() {
    let mut buf = String::from("before\n");
    TreeFormatter::with_context("Title", &mut buf, "[ctx] ").unwrap();
    assert_eq!(buf, "before\n[ctx] Title\n");

    let mut plain = String::new();
    TreeFormatter::new("Title", &mut plain).unwrap();
    assert_eq!(plain, "Title\n");

    let mut empty = String::new();
    TreeFormatter::new("", &mut empty).unwrap();
    assert_eq!(empty, "\n");
}

#[test]
fn label_opens_every_line() {
    let mut buf = String::new();
    let mut tf = TreeFormatter::with_context("R", &mut buf, "> ").unwrap();
    tf.begin_level(true);
    tf.write(false, "A").unwrap();
    tf.begin_level(false);
    tf.write(true, "X").unwrap();
    tf.end_level();
    tf.write(true, "B").unwrap();
    assert_eq!(buf, "> R\n> ├── A\n> │   └── X\n> └── B\n");
}

#[test]
fn new_glyphs_hold_for_later_writes_only() {
    let mut buf = String::new();
    let mut tf = TreeFormatter::new("R", &mut buf).unwrap();
    tf.begin_level(true);
    tf.write(false, "A").unwrap();
    tf.prefix_format(ItemPrefixFormat::new("+- ", "`- "));
    tf.write(false, "B").unwrap();
    tf.begin_level(false);
    tf.write(true, "X").unwrap();
    tf.context_format(ContextFormat::new("  ", "| "));
    tf.write(true, "Y").unwrap();
    tf.begin_level(false);
    tf.write(true, "P").unwrap();
    tf.end_level();
    tf.end_level();
    tf.write(true, "C").unwrap();
    assert_eq!(
        buf,
        "R\n├── A\n+- B\n│   `- X\n│   `- Y\n│   | `- P\n`- C\n"
    );
}

#[test]
fn setters_chain() {
    let mut buf = String::new();
    let mut tf = TreeFormatter::new("R", &mut buf).unwrap();
    tf.context_format(ContextFormat::new("_", "!"))
        .prefix_format(ItemPrefixFormat::new("-", "="))
        .begin_level(true);
    tf.write(false, "A").unwrap();
    tf.begin_level(false);
    tf.write(true, "X").unwrap();
    assert_eq!(buf, "R\n-A\n!=X\n");
}

#[test]
fn glyphs_of_any_length_are_joined_as_they_are() {
    let mut buf = String::new();
    let mut tf = TreeFormatter::new("R", &mut buf).unwrap();
    tf.context_format(ContextFormat::new("", "||||||"));
    tf.prefix_format(ItemPrefixFormat::new("→", ""));
    tf.begin_level(true);
    tf.write(false, "A").unwrap();
    tf.begin_level(false);
    tf.write(false, "X").unwrap();
    tf.begin_level(true);
    tf.write(true, "P").unwrap();
    tf.write(false, "").unwrap();
    assert_eq!(buf, "R\n→A\n||||||→X\n||||||P\n||||||→\n");
}

#[test]
fn closing_more_levels_than_were_opened_is_tolerated() {
    let mut buf = String::new();
    let mut tf = TreeFormatter::new("R", &mut buf).unwrap();
    tf.end_level();
    tf.end_level();
    tf.write(true, "A").unwrap();
    tf.begin_level(false);
    tf.begin_level(false);
    tf.begin_level(false);
    tf.write(true, "B").unwrap();
    tf.begin_level(false);
    tf.write(true, "C").unwrap();
    assert_eq!(buf, "R\n└── A\n└── B\n│   └── C\n");
}

#[test]
fn writing_at_the_root_level_uses_the_prefix_alone() {
    let mut buf = String::new();
    let mut tf = TreeFormatter::new("R", &mut buf).unwrap();
    tf.write(false, "A").unwrap();
    tf.write(true, "B").unwrap();
    assert_eq!(buf, "R\n├── A\n└── B\n");
}

#[test]
fn write_fmt_renders_what_can_be_displayed() {
    let mut buf = String::new();
    let mut tf = TreeFormatter::new("R", &mut buf).unwrap();
    tf.begin_level(true);
    tf.write_fmt(false, 42u8).unwrap();
    tf.write_fmt(false, String::from("owned")).unwrap();
    tf.write_fmt(false, 'c').unwrap();
    tf.write_fmt(true, "text").unwrap();
    assert_eq!(buf, "R\n├── 42\n├── owned\n├── c\n└── text\n");
}

#[test]
fn a_refused_title_is_a_write_failure() {
    let mut sink = Limited::new(0);
    assert!(matches!(TreeFormatter::new("R", &mut sink), Err(WriteFailure)));
    let mut sink = Limited::new(2);
    assert!(matches!(
        TreeFormatter::with_context("R", &mut sink, "ctx"),
        Err(WriteFailure)
    ));
    assert_eq!(sink.text, "ctxR");
}

#[test]
fn a_refused_line_is_a_write_failure() {
    // The title takes three pieces, a line at the first level four.
    let mut sink = Limited::new(3 + 4 + 2);
    let mut tf = TreeFormatter::new("R", &mut sink).unwrap();
    tf.begin_level(true);
    assert_eq!(tf.write(false, "A"), Ok(()));
    assert_eq!(tf.write(true, "B"), Err(WriteFailure));
    assert_eq!(tf.write_fmt(true, "C"), Err(WriteFailure));
    assert_eq!(sink.text, "R\n├── A\n└── ");
}

#[test]
fn write_level_stops_at_the_first_refused_line() {
    let mut sink = Limited::new(3 + 4 + 1);
    let mut tf = TreeFormatter::new("R", &mut sink).unwrap();
    let outcome = tf.write_level(true, &strings(&["x", "y", "z"]));
    assert_eq!(outcome, Err(WriteFailure));
    assert_eq!(sink.text, "R\n├── x\n");
}

#[test]
fn write_level_leaves_its_level_open_after_a_failure() {
    // The title takes three pieces and the line of "A" four; the label of
    // the line of "x" is the piece that is refused.
    let mut sink = Hiccup::new(3 + 4);
    let mut tf = TreeFormatter::new("R", &mut sink).unwrap();
    tf.begin_level(true);
    tf.write(false, "A").unwrap();
    assert_eq!(tf.depth(), 1);
    assert_eq!(tf.write_level(false, &strings(&["x", "y"])), Err(WriteFailure));
    assert_eq!(tf.depth(), 2);
    tf.write(true, "z").unwrap();
    tf.end_level();
    tf.write(true, "B").unwrap();
    assert_eq!(sink.text, "R\n├── A\n│   └── z\n└── B\n");
}

#[test]
fn a_refused_write_leaves_the_levels_as_they_were() {
    let mut sink = Hiccup::new(3 + 4 + 5 + 2);
    let mut tf = TreeFormatter::new("R", &mut sink).unwrap();
    tf.begin_level(true);
    tf.write(false, "A").unwrap();
    tf.begin_level(false);
    tf.write(false, "x").unwrap();
    assert_eq!(tf.write(true, "y"), Err(WriteFailure));
    assert_eq!(tf.depth(), 2);
    tf.write(true, "y").unwrap();
    assert_eq!(sink.text, "R\n├── A\n│   ├── x\n│   │   └── y\n");
}

#[test]
fn depth_counts_the_open_levels() {
    let mut buf = String::new();
    let mut tf = TreeFormatter::new("R", &mut buf).unwrap();
    assert_eq!(tf.depth(), 0);
    tf.begin_level(true);
    tf.begin_level(false);
    assert_eq!(tf.depth(), 2);
    tf.write_level(false, &strings(&["x"])).unwrap();
    assert_eq!(tf.depth(), 2);
    tf.end_level();
    tf.end_level();
    tf.end_level();
    assert_eq!(tf.depth(), -1);
}

#[test]
fn a_value_draws_itself() {
    let tree = Dir {
        name: "root",
        entries: vec![
            Dir { name: "src", entries: vec![Dir::leaf("main"), Dir::leaf("util")] },
            Dir::leaf("README"),
            Dir { name: "tests", entries: vec![Dir::leaf("all")] },
        ],
    };
    let mut buf = String::new();
    let mut tf = TreeFormatter::new(tree.name, &mut buf).unwrap();
    tf.write_tree(tree).unwrap();
    assert_eq!(
        buf,
        "root\n├── src\n│   ├── main\n│   └── util\n├── README\n└── tests\n    └── all\n"
    );
}

#[test]
fn a_value_that_fails_to_draw_hands_the_failure_on() {
    let tree = Dir { name: "root", entries: vec![Dir::leaf("a"), Dir::leaf("b")] };
    let mut sink = Limited::new(3 + 4 + 3);
    let mut tf = TreeFormatter::new(tree.name, &mut sink).unwrap();
    assert_eq!(tf.write_tree(tree), Err(WriteFailure));
    assert_eq!(sink.text, "root\n├── a\n└── b");
}

#[test]
fn context_glyph_is_chosen_by_the_flag() {
    let format = ContextFormat::new("done", "open");
    assert_eq!(format.context(true), "done");
    assert_eq!(format.context(false), "open");
    let standard = ContextFormat::default();
    assert_eq!(standard.context(true), "    ");
    assert_eq!(standard.context(false), "│   ");
}

#[test]
fn prefix_glyph_is_chosen_by_the_flag() {
    let format = ItemPrefixFormat::new("mid", "end");
    assert_eq!(format.prefix(true), "end");
    assert_eq!(format.prefix(false), "mid");
    let standard = ItemPrefixFormat::default();
    assert_eq!(standard.prefix(true), "└── ");
    assert_eq!(standard.prefix(false), "├── ");
}

#[test]
fn a_string_sink_appends_and_never_fails() {
    let mut buf = String::from("a");
    assert_eq!(Sink::write_str(&mut buf, "bc"), Ok(()));
    assert_eq!(Sink::write_str(&mut buf, ""), Ok(()));
    assert_eq!(buf, "abc");
}
