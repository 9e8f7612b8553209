use lao::invoke::{Call, Ending, Invocation, Reply, Stage};
use lao::plugin::{validate_input, PluginDescriptor, PLUGIN_ABI_VERSION};
use lao::registry::{Candidate, PluginLoadError, Registry};

#[test]
fn lib_test_validate_input() {
    assert!(validate_input("Some text to summarize"));
    assert!(!validate_input("   "));
    assert!(validate_input("path/to/audio.wav"));
    assert!(!validate_input("   "));
}

#[test]
fn validate_input_edge_cases() {
    assert!(!validate_input(""));
    assert!(!validate_input(" \t\r\n\u{a0}\u{3000}"));
    assert!(validate_input("  x  "));
    assert!(validate_input("\u{200b}"));
}

fn descriptor(name: &str) -> PluginDescriptor {
    PluginDescriptor {
        name: name.to_string(),
        version: "1.0.0".to_string(),
        description: String::new(),
        author: String::new(),
        tags: vec![],
        capabilities: vec![],
        input_schema: None,
        output_schema: None,
    }
}

fn candidate(version: u32, name: &str) -> Candidate {
    Candidate { abi_version: version, descriptor: descriptor(name) }
}

#[test]
fn registry_admits_first_of_each_name_with_the_right_version() {
    let cands = vec![
        candidate(PLUGIN_ABI_VERSION, "WhisperPlugin"),
        candidate(PLUGIN_ABI_VERSION + 1, "OldPlugin"),
        candidate(PLUGIN_ABI_VERSION, "SummarizerPlugin"),
        candidate(PLUGIN_ABI_VERSION, "WhisperPlugin"),
    ];
    let (reg, errors) = Registry::build(&cands);
    assert_eq!(reg.slots, vec![0, 2]);
    assert_eq!(reg.names, vec!["WhisperPlugin", "SummarizerPlugin"]);
    assert_eq!(errors.len(), 2);
    assert!(matches!(errors[0], PluginLoadError::BadVersion { slot: 1, found } if found == PLUGIN_ABI_VERSION + 1));
    assert!(matches!(&errors[1], PluginLoadError::Duplicate { slot: 3, name } if name == "WhisperPlugin"));
    assert_eq!(reg.get(&"SummarizerPlugin".to_string()), Some(2));
    assert_eq!(reg.get(&"WhisperPlugin".to_string()), Some(0));
    assert_eq!(reg.get(&"OldPlugin".to_string()), None);
}

#[test]
fn registry_of_nothing_is_empty() {
    let (reg, errors) = Registry::build(&vec![]);
    assert!(reg.slots.is_empty() && errors.is_empty());
    assert_eq!(reg.get(&"EchoPlugin".to_string()), None);
}

#[test]
fn run_output_is_released_once() {
    let mut inv = Invocation::new(false);
    assert_eq!(inv.advance(Reply::Begin), Call::Validate);
    assert_eq!(inv.advance(Reply::Valid(true)), Call::Run);
    assert_eq!(inv.advance(Reply::Returned(true)), Call::Release);
    assert_eq!(inv.stage, Stage::Releasing);
    assert_eq!(inv.advance(Reply::Released), Call::Stop(Ending::Produced));
    assert_eq!(inv.stage, Stage::Finished);
    assert_eq!(inv.advance(Reply::Released), Call::Stop(Ending::Broken));
}

#[test]
fn held_output_asks_for_release_until_released() {
    let mut inv = Invocation::new(false);
    inv.advance(Reply::Begin);
    inv.advance(Reply::Valid(true));
    inv.advance(Reply::Returned(true));
    assert_eq!(inv.advance(Reply::Written(3)), Call::Release);
    assert_eq!(inv.advance(Reply::Released), Call::Stop(Ending::Produced));
}

#[test]
fn buffered_path_is_tried_first() {
    let mut inv = Invocation::new(true);
    inv.advance(Reply::Begin);
    assert_eq!(inv.advance(Reply::Valid(true)), Call::RunBuffered);
    assert_eq!(inv.advance(Reply::Written(12)), Call::Stop(Ending::Produced));

    let mut inv = Invocation::new(true);
    inv.advance(Reply::Begin);
    inv.advance(Reply::Valid(true));
    assert_eq!(inv.advance(Reply::Written(0)), Call::Run);
    assert_eq!(inv.advance(Reply::Returned(true)), Call::Release);
}

#[test]
fn refused_input_is_never_run() {
    let mut inv = Invocation::new(true);
    inv.advance(Reply::Begin);
    assert_eq!(inv.advance(Reply::Valid(false)), Call::Stop(Ending::Refused));
}

#[test]
fn run_without_text_is_broken() {
    let mut inv = Invocation::new(false);
    inv.advance(Reply::Begin);
    inv.advance(Reply::Valid(true));
    assert_eq!(inv.advance(Reply::Returned(false)), Call::Stop(Ending::Broken));
    let mut inv = Invocation::new(false);
    assert_eq!(inv.advance(Reply::Valid(true)), Call::Stop(Ending::Broken));
}
