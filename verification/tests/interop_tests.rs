use ad_libber::dialogue::{DialogueCache, FormatFault};
use ad_libber::interop::global_state::{FilenameSectionPair, GlobalState, OneShotSet};
use ad_libber::interop::iter_wrapper::IterWrapper;
use ad_libber::interop::queue_params::QueueParams;

fn parts(input: &str) -> Option<(String, String, bool)> {
    QueueParams::parse(input).map(|q| (q.filename.to_string(), q.section.to_string(), q.oneshot))
}

fn some(f: &str, s: &str, o: bool) -> Option<(String, String, bool)> {
    Some((f.to_string(), s.to_string(), o))
}

fn shown_after(state: &mut GlobalState, request: &str) -> String {
    state.engine.clear();
    state.queue(QueueParams::parse(request).unwrap());
    state.engine.tick(1_000_000);
    state.engine.current().string().to_string()
}

#[test]
fn queue_requests() {
    assert_eq!(parts("file|section"), some("file", "section", false));
    assert_eq!(parts("file|section|oneshot"), some("file", "section", true));
    assert_eq!(parts("file|section|x|ONESHOT|y"), some("file", "section", true));
    assert_eq!(parts("file|section|x||OneShot"), some("file", "section", true));
    assert_eq!(parts("file|section|"), some("file", "section", false));
    assert_eq!(parts("file|section|oneshots"), some("file", "section", false));
    assert_eq!(parts("file|section| oneshot"), some("file", "section", false));
    assert_eq!(parts("file|oneshot"), some("file", "oneshot", false));
    assert_eq!(parts("|"), some("", "", false));
    assert_eq!(parts("||oneshot"), some("", "", true));
    assert_eq!(parts("f\u{e9}|s\u{e9}|oneshot"), some("f\u{e9}", "s\u{e9}", true));
    assert_eq!(parts("file"), None);
    assert_eq!(parts(""), None);
}

#[test]
fn keys_are_equal_without_case() {
    let a = FilenameSectionPair::new("File", "Intro");
    assert!(a == FilenameSectionPair::new("file", "INTRO"));
    assert!(a != FilenameSectionPair::new("file", "outro"));
    assert!(a != FilenameSectionPair::new("files", "intro"));
    assert!(a != FilenameSectionPair::new("intro", "file"));
    assert!(a.same_key(&FilenameSectionPair::new("FILE", "intro")));
    assert!(FilenameSectionPair::new("\u{e9}", "") != FilenameSectionPair::new("\u{c9}", ""));
}

#[test]
fn a_key_is_new_only_once() {
    let mut set = OneShotSet::default();
    assert!(!set.contains(&FilenameSectionPair::new("f", "s")));
    assert!(set.insert(FilenameSectionPair::new("f", "s")));
    assert!(set.contains(&FilenameSectionPair::new("F", "S")));
    assert!(!set.insert(FilenameSectionPair::new("F", "S")));
    assert!(set.insert(FilenameSectionPair::new("f", "t")));
    assert!(!set.insert(FilenameSectionPair::new("f", "s")));
    assert!(!set.insert(FilenameSectionPair::new("f", "T")));
}

#[test]
fn a_file_is_loaded_once() {
    let mut cache = DialogueCache::new();
    assert!(cache.get("a").is_none());
    assert_eq!(cache.preload("a", "[one]\nhello"), Ok(()));
    assert_eq!(cache.get("a").unwrap().sections[0].name, "one");
    assert_eq!(cache.get("a").unwrap().sections[0].filename, "a");
    assert_eq!(cache.preload("a", "[two]\nother"), Ok(()));
    assert_eq!(cache.get("a").unwrap().sections[0].name, "one");
    assert_eq!(cache.preload("a", "not a script"), Ok(()));
    assert_eq!(cache.get("A").unwrap().sections[0].name, "one");
    assert_eq!(cache.preload("A", "[three]"), Ok(()));
    assert_eq!(cache.get("A").unwrap().sections[0].name, "one");
    assert!(cache.get("aa").is_none());
    assert_eq!(cache.preload("b", "[two]"), Ok(()));
    assert_eq!(cache.get("b").unwrap().sections[0].name, "two");
    assert_eq!(cache.get("a").unwrap().sections[0].name, "one");
    let copy = cache.clone();
    assert_eq!(copy.get("b").unwrap().sections[0].name, "two");
    assert!(DialogueCache::default().get("a").is_none());
}

#[test]
fn a_script_with_a_fault_is_not_loaded() {
    let mut cache = DialogueCache::new();
    assert_eq!(cache.preload("a", "[one]\nfine\n[two]\n(wait x)"), Err(FormatFault::BadDuration));
    assert!(cache.get("a").is_none());
    assert_eq!(cache.preload("a", "[one]\nfine"), Ok(()));
    assert!(cache.get("a").is_some());
}

#[test]
fn file_names_get_the_path_and_the_ending() {
    let mut state = GlobalState::default();
    assert_eq!(state.full_filename("intro"), "intro.adlib");
    state.path = "data/".to_string();
    assert_eq!(state.full_filename("intro"), "data/intro.adlib");
    assert!(!state.is_loaded("intro"));
    assert_eq!(state.preload("intro", "[a]\nb"), Ok(()));
    assert!(state.is_loaded("intro"));
    assert!(state.cache.get("data/intro.adlib").is_some());
    assert_eq!(state.cache.get("data/intro.adlib").unwrap().sections[0].filename, "data/intro.adlib");
    assert_eq!(state.preload("broken", "["), Err(FormatFault::UnterminatedSection));
    assert!(!state.is_loaded("broken"));
}

#[test]
fn requests_are_looked_up_in_the_loaded_files() {
    let mut state = GlobalState::default();
    state.preload("talk", "[hello]\nhi there\n[bye]\nso long").unwrap();
    assert_eq!(shown_after(&mut state, "talk|BYE"), "so long#");
    assert_eq!(shown_after(&mut state, "talk|hello"), "hi there#");
    assert_eq!(
        shown_after(&mut state, "talk|nothing"),
        "Could not find dialogue section nothing"
    );
    assert_eq!(shown_after(&mut state, "walk|hello"), "Could not find dialogue file walk");
    assert_eq!(shown_after(&mut state, "walk|hello|oneshot"), "Could not find dialogue file walk");
}

#[test]
fn a_second_failed_lookup_in_a_row_is_a_requeue() {
    let mut state = GlobalState::default();
    state.queue(QueueParams::parse("walk|hello").unwrap());
    state.engine.tick(1_000_000);
    assert_eq!(state.engine.current().string(), "Could not find dialogue file walk");
    assert_eq!(state.engine.linger_elapsed(), 1_000);
    state.queue(QueueParams::parse("talk|hello").unwrap());
    assert_eq!(state.engine.current().string(), "Could not find dialogue file walk");
    assert_eq!(state.engine.linger_elapsed(), 500);
}

#[test]
fn a_oneshot_request_plays_once() {
    let mut state = GlobalState::default();
    state.preload("talk", "[hello]\nhi\n[bye]\nso long").unwrap();
    assert_eq!(shown_after(&mut state, "talk|hello|oneshot"), "hi#");
    assert_eq!(shown_after(&mut state, "talk|bye"), "so long#");
    assert_eq!(shown_after(&mut state, "TALK|Hello|oneshot"), "");
    assert_eq!(shown_after(&mut state, "talk|hello"), "hi#");
    state.engine.clear();
    state.queue(QueueParams::parse("talk|hello|oneshot").unwrap());
    assert!(state.engine.is_idle());
    state.queue(QueueParams::parse("talk|bye").unwrap());
    state.engine.tick(2_000);
    state.queue(QueueParams::parse("talk|hello|oneshot").unwrap());
    state.engine.tick(1_000);
    assert_eq!(state.engine.current().string(), "so ");
    assert!(state.one_shot_cache.contains(&FilenameSectionPair::new("talk", "HELLO")));
    assert!(!state.one_shot_cache.contains(&FilenameSectionPair::new("talk", "bye")));
}

#[test]
fn stepping_through_a_snapshot() {
    let mut state = GlobalState::default();
    state.preload("talk", "[hello]\nab (wide) cd (/wide) ef").unwrap();
    shown_after(&mut state, "talk|hello");
    let mut walk = IterWrapper::new(state.engine.current_string_iter());
    assert!(walk.current_string.is_none());
    assert!(walk.move_next());
    assert_eq!(walk.current_string.as_deref(), Some("ab"));
    assert!(walk.current_annotation.as_ref().unwrap().annotations.is_empty());
    assert!(walk.move_next());
    assert_eq!(walk.current_string.as_deref(), Some("cd"));
    assert_eq!(walk.current_annotation.as_ref().unwrap().annotations.len(), 1);
    assert!(walk.move_next());
    assert_eq!(walk.current_string.as_deref(), Some("ef#"));
    assert!(!walk.move_next());
    assert_eq!(walk.current_string.as_deref(), Some("ef#"));
    assert!(!walk.move_next());
    let mut empty = IterWrapper::default();
    assert!(!empty.move_next());
    assert!(empty.current_annotation.is_none());
}
