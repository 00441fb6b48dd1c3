use ad_libber::dialogue::{
    Annotation, Chunk, Command, Dialogue, DialogueCursor, DialogueFile, TextChunk,
};

fn text(s: &str) -> Chunk {
    Chunk::Text(TextChunk::new(s.to_string(), None))
}

fn dialogue(chunks: Vec<Chunk>) -> Dialogue {
    Dialogue { name: "intro".to_string(), filename: "test".to_string(), chunks }
}

fn spans_of(c: &DialogueCursor) -> Vec<(usize, usize, Vec<Annotation>)> {
    let a = c.get();
    a.annotations().iter().map(|s| (s.start(), s.end(), s.annotations.clone())).collect()
}

#[test]
fn tick_lengths() {
    assert_eq!(text("hello").tick_len(), 5);
    assert_eq!(text("").tick_len(), 0);
    assert_eq!(text("h\u{e9}llo").tick_len(), 5);
    assert_eq!(Chunk::Newline.tick_len(), 1);
    assert_eq!(Chunk::Command(Command::Wait(17)).tick_len(), 17);
    assert_eq!(Chunk::Command(Command::Clear).tick_len(), 0);
    assert_eq!(Command::Wait(60).tick_len(), 60);
    assert_eq!(Command::Speaker("bob".to_string()).tick_len(), 0);
    assert_eq!(Command::AnnotationStart(Annotation::Wide).tick_len(), 0);
    assert_eq!(Command::AnnotationEnd(Annotation::Jiggly).tick_len(), 0);
}

#[test]
fn single_text_chunk_reveals_by_character() {
    let d = dialogue(vec![text("hi")]);
    let mut c = DialogueCursor::new(&d);
    assert_eq!(c.get().string(), "");
    assert!(c.incr());
    assert_eq!(c.get().string(), "h");
    assert!(c.incr());
    assert_eq!(c.get().string(), "hi");
    assert!(!c.is_exhausted());
    assert!(!c.incr());
    assert!(c.is_exhausted());
    assert!(!c.incr());
    assert_eq!(c.get().string(), "hi");
}

#[test]
fn full_reveal_takes_the_ticks_and_one_step_per_later_chunk() {
    let d = dialogue(vec![text("ab"), Chunk::Newline, text("c")]);
    let mut c = DialogueCursor::new(&d);
    let shown = ["a", "ab", "ab#", "ab#", "ab#", "ab#c"];
    for expected in shown {
        assert!(c.incr());
        assert_eq!(c.get().string(), expected);
    }
    assert!(!c.is_exhausted());
    assert!(!c.incr());
    assert!(c.is_exhausted());
    assert!(!c.incr());
}

#[test]
fn empty_dialogue_is_exhausted_from_the_start() {
    let d = dialogue(vec![]);
    let mut c = DialogueCursor::new(&d);
    assert!(c.is_exhausted());
    assert!(!c.incr());
    let a = c.get();
    assert_eq!(a.string(), "");
    assert_eq!(a.annotations().len(), 1);
}

#[test]
fn get_twice_gives_the_same() {
    let d = dialogue(vec![
        text("one"),
        Chunk::Command(Command::AnnotationStart(Annotation::Wide)),
        text("two"),
        Chunk::Newline,
    ]);
    let mut c = DialogueCursor::new(&d);
    for _ in 0..6 {
        c.incr();
        let first = c.get();
        let second = c.get();
        assert_eq!(first.string(), second.string());
        assert_eq!(spans_of(&c), spans_of(&c));
        assert_eq!(first.annotations().len(), second.annotations().len());
    }
}

#[test]
fn spans_without_commands_cover_the_text() {
    let d = dialogue(vec![text("hello"), Chunk::Newline, text("there")]);
    let mut c = DialogueCursor::new(&d);
    while c.incr() {}
    assert_eq!(c.get().string(), "hello#there");
    assert_eq!(spans_of(&c), vec![(0, 11, vec![])]);
}

#[test]
fn leading_commands_leave_no_gap() {
    let d = dialogue(vec![
        Chunk::Command(Command::AnnotationStart(Annotation::Jiggly)),
        Chunk::Command(Command::AnnotationStart(Annotation::Wide)),
        text("wobble"),
    ]);
    let mut c = DialogueCursor::new(&d);
    while c.incr() {}
    assert_eq!(c.get().string(), "wobble");
    assert_eq!(
        spans_of(&c),
        vec![
            (0, 0, vec![]),
            (0, 0, vec![Annotation::Jiggly]),
            (0, 6, vec![Annotation::Jiggly, Annotation::Wide]),
        ]
    );
}

#[test]
fn a_command_behind_text_leaves_one_separator_between_spans() {
    let d = dialogue(vec![text("hi"), Chunk::Command(Command::Wait(2)), text("bye")]);
    let mut c = DialogueCursor::new(&d);
    while c.incr() {}
    let a = c.get();
    assert_eq!(a.string(), "hi bye");
    assert_eq!(spans_of(&c), vec![(0, 2, vec![]), (3, 6, vec![])]);
    let mut it = a.iter();
    let (first, _) = it.next().unwrap();
    assert_eq!(first, "hi");
    let (second, _) = it.next().unwrap();
    assert_eq!(second, "bye");
    assert!(it.next().is_none());
    assert!(it.next().is_none());
}

#[test]
fn wait_takes_its_ticks() {
    let d = dialogue(vec![text("a"), Chunk::Command(Command::Wait(3)), text("b")]);
    let mut c = DialogueCursor::new(&d);
    assert!(c.incr());
    assert_eq!(c.get().string(), "a");
    for _ in 0..4 {
        assert!(c.incr());
        assert_eq!(c.get().string(), "a ");
    }
    assert!(c.incr());
    assert_eq!(c.get().string(), "a ");
    assert!(c.incr());
    assert_eq!(c.get().string(), "a b");
    assert!(!c.incr());
}

#[test]
fn clear_drops_what_came_before() {
    let d = dialogue(vec![
        text("hi"),
        Chunk::Newline,
        Chunk::Command(Command::Clear),
        text("bye"),
    ]);
    let mut c = DialogueCursor::new(&d);
    for _ in 0..4 {
        assert!(c.incr());
    }
    assert_eq!(c.get().string(), "hi#");
    assert!(c.incr());
    let a = c.get();
    assert_eq!(a.string(), "");
    assert_eq!(spans_of(&c), vec![(0, 0, vec![]), (0, 0, vec![])]);
    assert!(c.incr());
    assert_eq!(c.get().string(), "");
    assert!(c.incr());
    assert_eq!(c.get().string(), "b");
    while c.incr() {
        assert!(!c.get().string().contains("hi"));
    }
    assert_eq!(c.get().string(), "bye");
}

#[test]
fn jiggle_gives_three_spans() {
    let file = DialogueFile::parse_contents("test", "[s]\n(jiggle) X (/jiggle)").unwrap();
    let mut c = DialogueCursor::new(&file.sections[0]);
    while c.incr() {}
    let a = c.get();
    assert_eq!(a.string(), "X #");
    let spans = a.annotations();
    assert_eq!(spans.len(), 3);
    assert!(!spans[0].has(Annotation::Jiggly));
    assert!(spans[1].has(Annotation::Jiggly));
    assert!(!spans[2].has(Annotation::Jiggly));
    assert_eq!((spans[0].start(), spans[0].end()), (0, 0));
    assert_eq!((spans[1].start(), spans[1].end()), (0, 1));
    assert_eq!((spans[2].start(), spans[2].end()), (2, 3));
    assert_eq!(spans[1].styles(), &vec![Annotation::Jiggly]);
    let mut it = a.clone().owned_iter();
    assert_eq!(it.next().unwrap().0, "");
    assert_eq!(it.next().unwrap().0, "X");
    assert_eq!(it.next().unwrap().0, "#");
    assert!(it.next().is_none());
}

#[test]
fn ending_a_style_removes_every_copy_of_it() {
    let d = dialogue(vec![
        Chunk::Command(Command::AnnotationStart(Annotation::Jiggly)),
        Chunk::Command(Command::AnnotationStart(Annotation::Wide)),
        Chunk::Command(Command::AnnotationStart(Annotation::Jiggly)),
        Chunk::Command(Command::AnnotationEnd(Annotation::Jiggly)),
        text("x"),
    ]);
    let mut c = DialogueCursor::new(&d);
    while c.incr() {}
    let spans = spans_of(&c);
    assert_eq!(spans.len(), 5);
    assert_eq!(spans[3].2, vec![Annotation::Jiggly, Annotation::Wide, Annotation::Jiggly]);
    assert_eq!(spans[4], (0, 1, vec![Annotation::Wide]));
}

#[test]
fn text_is_counted_in_characters() {
    let d = dialogue(vec![text("\u{e9}t\u{e9}"), Chunk::Command(Command::Clear)]);
    let mut c = DialogueCursor::new(&d);
    assert!(c.incr());
    assert_eq!(c.get().string(), "\u{e9}");
    assert!(c.incr());
    assert_eq!(c.get().string(), "\u{e9}t");
    assert!(c.incr());
    let a = c.get();
    assert_eq!(a.string(), "\u{e9}t\u{e9}");
    assert_eq!(a.annotations()[0].end(), 3);
    assert_eq!(a.iter().next().unwrap().0, "\u{e9}t\u{e9}");
}

#[test]
fn cursor_works_on_a_copy() {
    let mut d = dialogue(vec![text("abc")]);
    let mut c = DialogueCursor::new(&d);
    d.chunks.clear();
    d.name = "other".to_string();
    assert!(c.incr());
    assert_eq!(c.get().string(), "a");
    assert!(!c.dialogue_name_eq(&d));
    d.name = "INTRO".to_string();
    d.filename = "Test".to_string();
    assert!(c.dialogue_name_eq(&d));
    let copy = c.clone();
    assert!(c.incr());
    assert_eq!(copy.get().string(), "a");
    assert_eq!(c.get().string(), "ab");
}

#[test]
fn error_dialogue_holds_the_message() {
    let d = Dialogue::from_error("no such thing");
    assert_eq!(d.name, "error");
    assert_eq!(d.filename, "error");
    assert_eq!(d.chunks.len(), 1);
    match &d.chunks[0] {
        Chunk::Text(t) => {
            assert_eq!(t.text(), "no such thing");
            assert_eq!(t.talker_id(), None);
        }
        other => panic!("unexpected {:?}", other),
    }
    assert!(d.name_eq(&Dialogue::from_error("another")));
    let e = Dialogue::default();
    assert_eq!(e.name, "");
    assert!(e.chunks.is_empty());
    assert!(!d.name_eq(&e));
}
