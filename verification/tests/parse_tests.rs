use ad_libber::dialogue::{Annotation, Chunk, Command, DialogueFile, FormatFault};
use ad_libber::talker::Talker;

fn describe(c: &Chunk) -> String {
    match c {
        Chunk::Text(t) => format!("text {:?} {:?}", t.text(), t.talker_id()),
        Chunk::Newline => "newline".to_string(),
        Chunk::Command(Command::Wait(t)) => format!("wait {}", t),
        Chunk::Command(Command::Clear) => "clear".to_string(),
        Chunk::Command(Command::Speaker(s)) => format!("speaker {}", s),
        Chunk::Command(Command::AnnotationStart(a)) => format!("start {:?}", a),
        Chunk::Command(Command::AnnotationEnd(a)) => format!("end {:?}", a),
    }
}

fn chunks_of(script: &str) -> Vec<String> {
    let file = DialogueFile::parse_contents("test", script).unwrap();
    assert_eq!(file.sections.len(), 1);
    file.sections[0].chunks.iter().map(describe).collect()
}

fn wait(arg: &str) -> Result<u32, FormatFault> {
    match Command::parse(&format!("wait {}", arg)) {
        Ok(Some(Command::Wait(t))) => Ok(t),
        Err(e) => Err(e),
        other => panic!("unexpected {:?}", other),
    }
}

#[test]
fn test_parse() {
    let parsed = DialogueFile::parse_contents(
        "test",
        "[talker goose]
sprite = spr_goose
sound = snd_goose

# comment

[intro]
goose | hello there
(wait 100ms)
goose | (j) toad (/j)",
    )
    .unwrap();

    println!("{:#?}", parsed);
    assert_eq!(parsed.talkers.len(), 1);
    assert_eq!(parsed.talkers[0].name, "goose");
    assert_eq!(parsed.talkers[0].sprite, "spr_goose");
    assert_eq!(parsed.talkers[0].sound, "snd_goose");
    assert_eq!(parsed.talkers[0].rate, None);
    assert_eq!(parsed.sections.len(), 1);
    assert_eq!(parsed.sections[0].name, "intro");
    assert_eq!(parsed.sections[0].filename, "test");
    let chunks: Vec<String> = parsed.sections[0].chunks.iter().map(describe).collect();
    assert_eq!(
        chunks,
        vec![
            "text \"hello there\" Some(0)",
            "newline",
            "wait 6",
            "text \"\" Some(0)",
            "start Jiggly",
            "text \"toad\" Some(0)",
            "end Jiggly",
            "text \"\" Some(0)",
            "newline",
        ]
    );
}

#[test]
fn wait_two_seconds_is_120_ticks() {
    assert_eq!(wait("2s"), Ok(120));
}

#[test]
fn wait_500_milliseconds_is_30_ticks() {
    assert_eq!(wait("500ms"), Ok(30));
}

#[test]
fn wait_without_argument_is_60_ticks() {
    assert!(matches!(Command::parse("wait"), Ok(Some(Command::Wait(60)))));
    assert!(matches!(Command::parse("w"), Ok(Some(Command::Wait(60)))));
    assert!(matches!(Command::parse("  WAIT  "), Ok(Some(Command::Wait(60)))));
}

#[test]
fn wait_with_a_word_is_a_fault() {
    assert_eq!(wait("abc"), Err(FormatFault::BadDuration));
}

#[test]
fn bare_numbers_are_ticks() {
    assert_eq!(wait("60"), Ok(60));
    assert_eq!(wait("0"), Ok(0));
    assert_eq!(wait("007"), Ok(7));
    assert_eq!(wait("+12"), Ok(12));
    assert_eq!(wait("1."), Ok(1));
    assert_eq!(wait("4294967295"), Ok(4294967295));
}

#[test]
fn durations_round_to_the_nearest_tick() {
    assert_eq!(wait("0.4"), Ok(0));
    assert_eq!(wait("0.49999999999999999999999999"), Ok(0));
    assert_eq!(wait(".5"), Ok(1));
    assert_eq!(wait("2.5"), Ok(3));
    assert_eq!(wait("1.5s"), Ok(90));
    assert_eq!(wait("0.008s"), Ok(0));
    assert_eq!(wait("0.00833333333333333333333333333s"), Ok(0));
    assert_eq!(wait("0.00833333333333333333333333334s"), Ok(1));
    assert_eq!(wait("0.0084s"), Ok(1));
    assert_eq!(wait("8ms"), Ok(0));
    assert_eq!(wait("9ms"), Ok(1));
    assert_eq!(wait("25ms"), Ok(2));
    assert_eq!(wait("1000ms"), Ok(60));
    assert_eq!(wait("4294967294.5"), Ok(4294967295));
}

#[test]
fn durations_take_exponents() {
    assert_eq!(wait("1e2"), Ok(100));
    assert_eq!(wait("1E2"), Ok(100));
    assert_eq!(wait("1e+2"), Ok(100));
    assert_eq!(wait("15e-1"), Ok(2));
    assert_eq!(wait("1e-1s"), Ok(6));
    assert_eq!(wait("0.0000000001e10"), Ok(1));
    assert_eq!(wait("1e-99999999999999999999999999999999999999999999"), Ok(0));
    assert_eq!(wait("0e99999999999999999999999999999999999999999999"), Ok(0));
    assert_eq!(wait("1e0000000000000000000000000000000000000000001"), Ok(10));
    assert_eq!(wait("5e3ms"), Ok(300));
}

#[test]
fn durations_stay_within_u32() {
    assert_eq!(wait("4294967296"), Ok(u32::MAX));
    assert_eq!(wait("99999999999999999999999999999999"), Ok(u32::MAX));
    assert_eq!(wait("1e10"), Ok(u32::MAX));
    assert_eq!(wait("1e99999999999999999999999999999999999999999999"), Ok(u32::MAX));
    assert_eq!(wait("71582789s"), Ok(u32::MAX));
    assert_eq!(wait("71582788s"), Ok(4294967280));
    assert_eq!(wait("inf"), Ok(u32::MAX));
    assert_eq!(wait("Infinity"), Ok(u32::MAX));
    assert_eq!(wait("infs"), Ok(u32::MAX));
    assert_eq!(wait("-inf"), Ok(0));
    assert_eq!(wait("nan"), Ok(0));
    assert_eq!(wait("-NaN"), Ok(0));
    assert_eq!(wait("-5"), Ok(0));
    assert_eq!(wait("-0.4"), Ok(0));
}

#[test]
fn what_is_no_number_is_a_fault() {
    for bad in [
        "s", "ms", ".", "e5", "1e", "1e+", "1..2", "1.2.3", "--1", "+", "1x", "0x10", "1 ", "1,5",
        "1e5.5", "in", "infinit", "\u{661}",
    ] {
        let parsed = Command::parse(&format!("wait {}", bad.replace(' ', "\u{a0}")));
        assert_eq!(parsed.err(), Some(FormatFault::BadDuration), "{:?}", bad);
    }
}

#[test]
fn command_words() {
    assert!(matches!(Command::parse("clear"), Ok(Some(Command::Clear))));
    assert!(matches!(Command::parse("C"), Ok(Some(Command::Clear))));
    assert!(matches!(Command::parse("Clear now"), Ok(Some(Command::Clear))));
    assert!(matches!(
        Command::parse("jiggle"),
        Ok(Some(Command::AnnotationStart(Annotation::Jiggly)))
    ));
    assert!(matches!(
        Command::parse("J"),
        Ok(Some(Command::AnnotationStart(Annotation::Jiggly)))
    ));
    assert!(matches!(
        Command::parse("/jiggle"),
        Ok(Some(Command::AnnotationEnd(Annotation::Jiggly)))
    ));
    assert!(matches!(Command::parse("/j"), Ok(Some(Command::AnnotationEnd(Annotation::Jiggly)))));
    assert!(matches!(
        Command::parse("wide"),
        Ok(Some(Command::AnnotationStart(Annotation::Wide)))
    ));
    assert!(matches!(
        Command::parse("/WIDE"),
        Ok(Some(Command::AnnotationEnd(Annotation::Wide)))
    ));
    assert!(matches!(Command::parse("/w"), Ok(Some(Command::AnnotationEnd(Annotation::Wide)))));
    assert!(matches!(Command::parse(""), Ok(None)));
    assert!(matches!(Command::parse("   "), Ok(None)));
    assert!(matches!(Command::parse("wd"), Ok(None)));
    assert!(matches!(Command::parse("shout"), Ok(None)));
    assert!(matches!(Command::parse("/clear"), Ok(None)));
    assert!(matches!(Command::parse("cl\u{e9}ar"), Ok(None)));
}

#[test]
fn the_letter_w_is_a_wait() {
    assert!(matches!(Command::parse("w 2s"), Ok(Some(Command::Wait(120)))));
    assert!(matches!(Command::parse("W"), Ok(Some(Command::Wait(60)))));
}

#[test]
fn speaker_needs_a_name() {
    match Command::parse("speaker Bob the Builder") {
        Ok(Some(Command::Speaker(name))) => assert_eq!(name, "Bob"),
        other => panic!("unexpected {:?}", other),
    }
    match Command::parse("s x") {
        Ok(Some(Command::Speaker(name))) => assert_eq!(name, "x"),
        other => panic!("unexpected {:?}", other),
    }
    assert!(matches!(Command::parse("speaker"), Err(FormatFault::MissingArgument)));
    assert!(matches!(Command::parse("S  "), Err(FormatFault::MissingArgument)));
}

#[test]
fn words_are_joined_by_single_spaces() {
    assert_eq!(
        chunks_of("[s]\n  hello \t  there   world  "),
        vec!["text \"hello there world\" None", "newline"]
    );
}

#[test]
fn a_line_of_spaces_is_content() {
    assert_eq!(chunks_of("[s]\n   "), vec!["text \"\" None", "newline"]);
}

#[test]
fn inline_commands_split_the_text() {
    assert_eq!(
        chunks_of("[s]\none (j) two three (/j) four (c)"),
        vec![
            "text \"one\" None",
            "start Jiggly",
            "text \"two three\" None",
            "end Jiggly",
            "text \"four\" None",
            "clear",
            "text \"\" None",
            "newline",
        ]
    );
}

#[test]
fn a_word_that_only_opens_a_parenthesis_is_text() {
    assert_eq!(
        chunks_of("[s]\nhi (wait 60) ( ) (x"),
        vec!["text \"hi (wait 60) ( ) (x\" None", "newline"]
    );
}

#[test]
fn standalone_commands_take_arguments() {
    assert_eq!(
        chunks_of("[s]\n(wait 2s)\n(speaker Bob)\n(clear)\n(wide)"),
        vec!["wait 120", "speaker Bob", "clear", "start Wide"]
    );
}

#[test]
fn a_line_in_parentheses_with_a_slash_is_content() {
    assert_eq!(
        chunks_of("[s]\n(/j)"),
        vec!["text \"\" None", "end Jiggly", "text \"\" None", "newline"]
    );
}

#[test]
fn speaker_tags_are_matched_without_case() {
    let script = "[talker Goose]\n[talker toad]\n[s]\nGOOSE | a\n  Toad  |  b  \nnewt | c\n | d\ntoad | x | y";
    let file = DialogueFile::parse_contents("f", script).unwrap();
    let chunks: Vec<String> = file.sections[0].chunks.iter().map(describe).collect();
    assert_eq!(
        chunks,
        vec![
            "text \"a\" Some(0)",
            "newline",
            "text \"b\" Some(1)",
            "newline",
            "text \"c\" None",
            "newline",
            "text \"d\" None",
            "newline",
            "text \"x | y\" Some(1)",
            "newline",
        ]
    );
}

#[test]
fn the_first_talker_of_a_name_is_meant() {
    let script = "[talker a]\nsprite=one\n[talker A]\nsprite=two\n[s]\nA | x";
    let file = DialogueFile::parse_contents("f", script).unwrap();
    assert_eq!(file.talkers.len(), 2);
    assert_eq!(describe(&file.sections[0].chunks[0]), "text \"x\" Some(0)");
}

#[test]
fn talkers_must_be_declared_before_their_lines() {
    let script = "[one]\ngoose | early\n[talker goose]\n[two]\ngoose | late";
    let file = DialogueFile::parse_contents("f", script).unwrap();
    assert_eq!(describe(&file.sections[0].chunks[0]), "text \"early\" None");
    assert_eq!(describe(&file.sections[1].chunks[0]), "text \"late\" Some(0)");
}

#[test]
fn talker_settings() {
    let script = "[talker Mr Goose]\n# a comment\n\nSprite =  spr goose \nSOUND=snd\nrate = 1.5\ncolour = red\nno equals sign\n";
    let file = DialogueFile::parse_contents("f", script).unwrap();
    assert_eq!(file.sections.len(), 0);
    let t = &file.talkers[0];
    assert_eq!(t.name, "Mr Goose");
    assert_eq!(t.sprite, "spr goose");
    assert_eq!(t.sound, "snd");
    assert_eq!(t.rate, Some(1500));
    let copy = t.clone();
    assert_eq!(copy.name, "Mr Goose");
    assert_eq!(copy.rate, Some(1500));
    let blank = Talker::default();
    assert_eq!((blank.name.as_str(), blank.rate), ("", None));
    assert_eq!(Talker::new("x".to_string()).name, "x");
}

#[test]
fn talker_rate_is_in_thousandths() {
    let rate = |v: &str| {
        DialogueFile::parse_contents("f", &format!("[talker t]\nrate = {}", v))
            .map(|f| f.talkers[0].rate)
    };
    assert_eq!(rate("0.75").unwrap(), Some(750));
    assert_eq!(rate("2").unwrap(), Some(2000));
    assert_eq!(rate("0.0004").unwrap(), Some(0));
    assert_eq!(rate("0.0005").unwrap(), Some(1));
    assert_eq!(rate("-1").unwrap(), Some(0));
    assert_eq!(rate("1e7").unwrap(), Some(u32::MAX));
    assert_eq!(rate("fast").err(), Some(FormatFault::BadRate));
    assert_eq!(rate("").err(), Some(FormatFault::BadRate));
}

#[test]
fn sections_and_talkers_come_in_file_order() {
    let script = "# head\n\n[b]\nx\n[talker t]\n[a]\n[talker u]\n[B]\ny\r\n";
    let file = DialogueFile::parse_contents("f", script).unwrap();
    let names: Vec<&str> = file.sections.iter().map(|s| s.name.as_str()).collect();
    assert_eq!(names, vec!["b", "a", "B"]);
    let talkers: Vec<&str> = file.talkers.iter().map(|s| s.name.as_str()).collect();
    assert_eq!(talkers, vec!["t", "u"]);
    assert!(file.sections[1].chunks.is_empty());
    assert_eq!(describe(&file.sections[2].chunks[0]), "text \"y\" None");
    assert_eq!(file.get("B").unwrap().chunks.len(), 2);
    assert_eq!(describe(&file.get("B").unwrap().chunks[0]), "text \"x\" None");
    assert_eq!(file.get("A").unwrap().name, "a");
    assert!(file.get("c").is_none());
    assert!(file.get("").is_none());
    let copy = file.clone();
    assert_eq!(copy.sections.len(), 3);
    assert_eq!(copy.talkers[1].name, "u");
    let empty = DialogueFile::default();
    assert!(empty.talkers.is_empty() && empty.sections.is_empty());
}

#[test]
fn a_header_with_talker_alone_is_a_section() {
    let file = DialogueFile::parse_contents("f", "[talker]\nx\n[talkers two]\n[TALKER  x]").unwrap();
    let names: Vec<&str> = file.sections.iter().map(|s| s.name.as_str()).collect();
    assert_eq!(names, vec!["talker", "talkers two"]);
    assert_eq!(file.talkers[0].name, " x");
}

#[test]
fn empty_script_has_nothing() {
    let file = DialogueFile::parse_contents("f", "").unwrap();
    assert!(file.talkers.is_empty() && file.sections.is_empty());
    let file = DialogueFile::parse_contents("f", "\n\n# only a comment\n").unwrap();
    assert!(file.talkers.is_empty() && file.sections.is_empty());
}

#[test]
fn faults_of_a_script() {
    let fault = |s: &str| DialogueFile::parse_contents("f", s).err();
    assert_eq!(fault("hello"), Some(FormatFault::StrayContent));
    assert_eq!(fault("# c\n\n(clear)\n[s]"), Some(FormatFault::StrayContent));
    assert_eq!(fault("[intro"), Some(FormatFault::UnterminatedSection));
    assert_eq!(fault("["), Some(FormatFault::UnterminatedSection));
    assert_eq!(fault("[s] "), Some(FormatFault::UnterminatedSection));
    assert_eq!(fault("[s]\n(wait abc)"), Some(FormatFault::BadDuration));
    assert_eq!(fault("[s]\n(speaker)"), Some(FormatFault::MissingArgument));
    assert_eq!(fault("[s]\n(dance)"), Some(FormatFault::UnknownCommand));
    assert_eq!(fault("[s]\n()"), Some(FormatFault::UnknownCommand));
    assert_eq!(fault("[s]\nhi (dance) there"), Some(FormatFault::UnknownCommand));
    assert_eq!(fault("[s]\nhi () there"), Some(FormatFault::UnknownCommand));
    assert_eq!(fault("[s]\nfine\n[t]\n(s)\n[u]\n(wait x)"), Some(FormatFault::MissingArgument));
    assert_eq!(fault("[talker t]\nrate = x\n[s]\n(dance)"), Some(FormatFault::BadRate));
    assert!(DialogueFile::parse_contents("f", "[]").is_ok());
}
