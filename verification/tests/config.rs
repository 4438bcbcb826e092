use loopers::config::{
    read_config, Config, ConfigFile, FollowUp, MappingFile, MidiOutMapping,
};
use loopers::midi::EngineSnapshotField;

const MAPPING: MidiOutMapping =
    MidiOutMapping { channel: 1, controller: 2, field: EngineSnapshotField::Part };

#[test]
fn file_names() {
    assert_eq!(ConfigFile::directory(), "loopers");
    assert_eq!(ConfigFile::LastSession.name(), ".last-session");
    assert_eq!(ConfigFile::MidiInMappings.name(), "midi_in_mappings.tsv");
    assert_eq!(ConfigFile::MidiOutMappings.name(), "midi_out_mappings.tsv");
}

#[test]
fn collects_mappings() {
    let mut c: Config<u8> = Config::new();
    assert_eq!(c.read_midi_in(MappingFile::Loaded(vec![1, 2])), Ok(FollowUp::Nothing));
    assert_eq!(c.read_midi_in(MappingFile::Loaded(vec![3])), Ok(FollowUp::Nothing));
    assert_eq!(c.read_midi_out(MappingFile::Loaded(vec![MAPPING])), Ok(FollowUp::Nothing));
    assert_eq!(c.midi_in_mappings, vec![1, 2, 3]);
    assert_eq!(c.midi_out_mappings, vec![MAPPING]);
}

#[test]
fn missing_files_are_created() {
    let mut c: Config<u8> = Config::new();
    assert_eq!(c.read_midi_in(MappingFile::NotFound), Ok(FollowUp::CreateEmpty));
    assert_eq!(c.read_midi_out(MappingFile::NotFound), Ok(FollowUp::CreateEmpty));
    assert_eq!(c.read_midi_in(MappingFile::Unreadable), Ok(FollowUp::Nothing));
    assert_eq!(c.read_midi_out(MappingFile::Unreadable), Ok(FollowUp::Nothing));
    assert!(c.midi_in_mappings.is_empty() && c.midi_out_mappings.is_empty());
}

#[test]
fn broken_files_are_errors() {
    let mut c: Config<u8> = Config::new();
    assert_eq!(
        c.read_midi_in(MappingFile::Invalid("line 3".to_string())),
        Err("Failed to load midi in mappings: line 3".to_string())
    );
    assert_eq!(
        c.read_midi_out(MappingFile::Invalid("line 4".to_string())),
        Err("Failed to load midi out mappings: line 4".to_string())
    );
}

#[test]
fn reads_both_files() {
    let r = read_config(MappingFile::Loaded(vec![1u8, 2]), MappingFile::Loaded(vec![MAPPING]));
    assert_eq!((r.midi_in, r.midi_out), (FollowUp::Nothing, FollowUp::Nothing));
    let config = r.config.unwrap_or(Config::new());
    assert_eq!(config.midi_in_mappings, vec![1, 2]);
    assert_eq!(config.midi_out_mappings, vec![MAPPING]);

    let r = read_config::<u8>(MappingFile::NotFound, MappingFile::NotFound);
    assert!(r.config.is_ok());
    assert_eq!((r.midi_in, r.midi_out), (FollowUp::CreateEmpty, FollowUp::CreateEmpty));
}

#[test]
fn a_broken_input_file_comes_first() {
    let broken = |s: &str| s.to_string();
    let r = read_config::<u8>(MappingFile::Invalid(broken("a")), MappingFile::Invalid(broken("b")));
    assert_eq!(r.config.err(), Some("Failed to load midi in mappings: a".to_string()));
    let r = read_config::<u8>(MappingFile::Invalid(broken("a")), MappingFile::NotFound);
    assert_eq!(r.config.err(), Some("Failed to load midi in mappings: a".to_string()));
    assert_eq!(r.midi_out, FollowUp::Nothing);
    let r = read_config::<u8>(MappingFile::NotFound, MappingFile::Invalid(broken("b")));
    assert_eq!(r.config.err(), Some("Failed to load midi out mappings: b".to_string()));
    assert_eq!((r.midi_in, r.midi_out), (FollowUp::CreateEmpty, FollowUp::Nothing));
}
