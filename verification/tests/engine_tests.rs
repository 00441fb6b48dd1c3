use ad_libber::dialogue::{Chunk, Dialogue, DialogueFile, TextChunk};
use ad_libber::dialogue_engine::{
    DialogueEngine, DialogueEngineOptions, DEFAULT_LINGER_TIME, DEFAULT_TEXT_RATE, LINGER_SEED,
    UNITS_PER_TICK,
};

fn engine_at_rate_one() -> DialogueEngine {
    DialogueEngine::new(DialogueEngineOptions {
        line_linger_time: DEFAULT_LINGER_TIME,
        text_rate: UNITS_PER_TICK,
    })
}

fn say(name: &str, file: &str, text: &str) -> Dialogue {
    Dialogue {
        name: name.to_string(),
        filename: file.to_string(),
        chunks: vec![Chunk::Text(TextChunk::new(text.to_string(), None))],
    }
}

fn shown(e: &DialogueEngine) -> String {
    e.current().string().to_string()
}

fn run(script: &str) -> Vec<String> {
    let file = DialogueFile::parse_contents("test", script).unwrap();
    let mut e = engine_at_rate_one();
    e.queue(file.get("intro").unwrap());
    let mut seen = vec![];
    while e.linger_elapsed() == 0 {
        e.tick(UNITS_PER_TICK);
        seen.push(shown(&e));
        assert!(seen.len() < 1000);
    }
    seen
}

#[test]
fn defaults() {
    let o = DialogueEngineOptions::default();
    assert_eq!(o.line_linger_time, 240_000);
    assert_eq!(o.text_rate, 750);
    assert_eq!(DEFAULT_TEXT_RATE, 750);
    assert_eq!(LINGER_SEED, UNITS_PER_TICK);
    let e = DialogueEngine::default();
    assert!(e.is_idle());
    assert_eq!(e.options, o);
    assert_eq!(shown(&e), "");
    assert_eq!(e.current().annotations().len(), 0);
    assert_eq!((e.elapsed(), e.linger_elapsed()), (0, 0));
}

#[test]
fn idle_engine_ignores_time() {
    let mut e = DialogueEngine::default();
    e.tick(5000);
    assert!(e.is_idle());
    assert_eq!((e.elapsed(), e.linger_elapsed()), (0, 0));
    e.clear();
    assert!(e.is_idle());
}

#[test]
fn time_is_spent_at_the_text_rate() {
    let mut e = DialogueEngine::default();
    e.queue(&say("s", "f", "abcdefgh"));
    assert!(!e.is_idle());
    assert_eq!(shown(&e), "");
    e.tick(1000);
    assert_eq!((shown(&e), e.elapsed()), ("a".to_string(), 250));
    e.tick(1000);
    assert_eq!((shown(&e), e.elapsed()), ("ab".to_string(), 500));
    e.tick(1000);
    assert_eq!((shown(&e), e.elapsed()), ("abc".to_string(), 750));
    e.tick(1000);
    assert_eq!((shown(&e), e.elapsed()), ("abcde".to_string(), 250));
    e.tick(0);
    assert_eq!((shown(&e), e.elapsed()), ("abcde".to_string(), 250));
    e.tick(500);
    assert_eq!((shown(&e), e.elapsed()), ("abcde".to_string(), 750));
    e.tick(1);
    assert_eq!((shown(&e), e.elapsed()), ("abcdef".to_string(), 1));
}

#[test]
fn a_finished_dialogue_lingers_and_is_cleared() {
    let mut e = engine_at_rate_one();
    e.queue(&say("s", "f", "ab"));
    e.tick(10_000);
    assert_eq!(shown(&e), "ab");
    assert_eq!(e.linger_elapsed(), LINGER_SEED);
    assert_eq!(e.elapsed(), 7_000);
    e.tick(1000);
    assert_eq!(e.linger_elapsed(), 2000);
    assert_eq!(e.elapsed(), 7_000);
    assert_eq!(shown(&e), "ab");
    e.tick(238_000);
    assert_eq!(e.linger_elapsed(), 240_000);
    assert!(!e.is_idle());
    e.tick(1);
    assert!(e.is_idle());
    assert_eq!(shown(&e), "");
    assert_eq!((e.elapsed(), e.linger_elapsed()), (0, 0));
}

#[test]
fn linger_time_stays_within_u64() {
    let mut e = DialogueEngine::new(DialogueEngineOptions {
        line_linger_time: u64::MAX,
        text_rate: UNITS_PER_TICK,
    });
    e.queue(&say("s", "f", ""));
    e.tick(2000);
    assert_eq!(e.linger_elapsed(), LINGER_SEED);
    e.tick(u64::MAX);
    assert_eq!(e.linger_elapsed(), u64::MAX);
    e.tick(u64::MAX);
    assert!(!e.is_idle());
}

#[test]
fn a_rate_of_zero_reveals_all_at_once() {
    let mut e = DialogueEngine::new(DialogueEngineOptions { line_linger_time: 10, text_rate: 0 });
    e.queue(&say("s", "f", "all of it"));
    e.tick(0);
    assert_eq!(shown(&e), "");
    e.tick(1);
    assert_eq!(shown(&e), "all of it");
    assert_eq!(e.linger_elapsed(), LINGER_SEED);
    e.tick(0);
    assert!(e.is_idle());
}

#[test]
fn queueing_again_halves_the_linger_time() {
    let mut e = engine_at_rate_one();
    e.queue(&say("Intro", "File", "ab"));
    e.tick(10_000);
    e.tick(4_001);
    assert_eq!(e.linger_elapsed(), 5_001);
    e.queue(&say("INTRO", "file", "something else"));
    assert_eq!(e.linger_elapsed(), 2_500);
    assert_eq!(shown(&e), "ab");
    assert_eq!(e.elapsed(), 7_000);
    e.queue(&say("intro", "FILE", ""));
    assert_eq!(e.linger_elapsed(), 1_250);
    e.tick(1000);
    assert_eq!(e.linger_elapsed(), 2_250);
    assert_eq!(shown(&e), "ab");
}

#[test]
fn queueing_again_keeps_the_position() {
    let mut e = engine_at_rate_one();
    let d = say("intro", "file", "abcdef");
    e.queue(&d);
    e.tick(3_500);
    assert_eq!((shown(&e), e.elapsed()), ("abc".to_string(), 500));
    e.queue(&d);
    assert_eq!((shown(&e), e.elapsed(), e.linger_elapsed()), ("abc".to_string(), 500, 0));
    e.tick(1_000);
    assert_eq!(shown(&e), "abcd");
}

#[test]
fn queueing_another_dialogue_starts_it() {
    let mut e = engine_at_rate_one();
    e.queue(&say("intro", "file", "abcdef"));
    e.tick(3_500);
    e.queue(&say("intro", "other", "xyz"));
    assert_eq!((shown(&e), e.elapsed(), e.linger_elapsed()), ("".to_string(), 0, 0));
    e.tick(2_000);
    assert_eq!(shown(&e), "x");
    e.queue(&say("outro", "other", "qrs"));
    e.tick(2_000);
    assert_eq!(shown(&e), "q");
    e.clear();
    assert!(e.is_idle());
    e.queue(&say("outro", "other", "qrs"));
    assert_eq!(shown(&e), "");
    assert!(!e.is_idle());
}

#[test]
fn the_iterator_walks_a_copy_of_the_snapshot() {
    let file = DialogueFile::parse_contents("t", "[intro]\nab (j) cd").unwrap();
    let mut e = engine_at_rate_one();
    e.queue(&file.sections[0]);
    e.tick(100_000);
    let mut it = e.current_string_iter();
    e.clear();
    let (text, span) = it.next().unwrap();
    assert_eq!(text, "ab");
    assert!(span.annotations.is_empty());
    let (text, span) = it.next().unwrap();
    assert_eq!(text, "cd#");
    assert_eq!(span.annotations.len(), 1);
    assert!(it.next().is_none());
    let copy = e.clone();
    assert!(copy.is_idle());
}

#[test]
fn example_script_is_revealed_and_cleared() {
    let seen = run("[intro]\nA | hi (wait 60)\n(clear)\nA | bye");
    assert_eq!(&seen[0..3], ["", "h", "hi"]);
    let cleared = seen.iter().rposition(|s| s.is_empty()).unwrap();
    assert!(cleared > 3);
    for (i, s) in seen.iter().enumerate() {
        if i < cleared - 1 {
            assert!(i == 0 || s.starts_with('h'), "{:?}", s);
        } else {
            assert!(!s.contains("hi"), "{:?}", s);
            assert!("bye#".starts_with(s.as_str()), "{:?}", s);
        }
    }
    assert_eq!(&seen[cleared + 1..cleared + 4], ["b", "by", "bye"]);
    assert_eq!(seen.last().unwrap(), "bye#");
}

#[test]
fn a_wait_on_its_own_line_pauses_for_its_ticks() {
    let seen = run("[intro]\nA | hi\n(wait 60)\n(clear)\nA | bye");
    assert_eq!(&seen[0..3], ["", "h", "hi"]);
    let paused = seen.iter().filter(|s| s.as_str() == "hi# ").count();
    assert_eq!(paused, 61);
    let first_pause = seen.iter().position(|s| s.as_str() == "hi# ").unwrap();
    assert_eq!(seen[first_pause + 61], "");
    assert!(seen[first_pause + 61..].iter().all(|s| !s.contains("hi")));
    assert_eq!(&seen[first_pause + 63..first_pause + 66], ["b", "by", "bye"]);
}
