//! The configuration files: which there are, and what reading them leads to.

use vstd::prelude::*;
use vstd::string::StringExecFns;

use crate::midi::EngineSnapshotField;

verus! {

/// A controller on which the MIDI output reports a field of the engine's state.
#[derive(Clone, Copy, Debug, PartialEq, Eq, Structural)]
pub struct MidiOutMapping {
    /// The MIDI channel, counted from 1.
    pub channel: u8,
    pub controller: u8,
    pub field: EngineSnapshotField,
}

/// A file that the program keeps in its configuration directory.
#[derive(Clone, Copy, Debug, PartialEq, Eq, Structural)]
pub enum ConfigFile {
    LastSession,
    MidiInMappings,
    MidiOutMappings,
}

impl ConfigFile {
    /// The name of the file.
    pub open spec fn spec_name(self) -> Seq<char> {
        match self {
            ConfigFile::LastSession => ".last-session"@,
            ConfigFile::MidiInMappings => "midi_in_mappings.tsv"@,
            ConfigFile::MidiOutMappings => "midi_out_mappings.tsv"@,
        }
    }

    /// The name of the file.
    pub fn name(&self) -> (r: String)
        ensures
            r@ == self.spec_name(),
    {
        match self {
            ConfigFile::LastSession => ".last-session".to_owned(),
            ConfigFile::MidiInMappings => "midi_in_mappings.tsv".to_owned(),
            ConfigFile::MidiOutMappings => "midi_out_mappings.tsv".to_owned(),
        }
    }

    /// The directory of the file, inside the user's configuration directory.
    pub fn directory() -> (r: String)
        ensures
            r@ == "loopers"@,
    {
        "loopers".to_owned()
    }
}

/// What came of reading a file of mappings.
pub enum MappingFile<M> {
    /// The file holds these mappings.
    Loaded(Vec<M>),
    /// The file is there, but makes no sense, for this reason.
    Invalid(String),
    /// There is no such file.
    NotFound,
    /// The file, or its directory, cannot be opened.
    Unreadable,
}

/// What is left to do after a file of mappings was read.
#[derive(Clone, Copy, Debug, PartialEq, Eq, Structural)]
pub enum FollowUp {
    Nothing,
    /// Create the file, with a header and no mappings.
    CreateEmpty,
}

impl<M> MappingFile<M> {
    /// The mappings that the file adds.
    pub open spec fn mappings(self) -> Seq<M> {
        match self {
            MappingFile::Loaded(ms) => ms@,
            _ => Seq::empty(),
        }
    }

    pub open spec fn follow_up(self) -> FollowUp {
        match self {
            MappingFile::NotFound => FollowUp::CreateEmpty,
            _ => FollowUp::Nothing,
        }
    }

    /// Adds the mappings of the file to `known`. Only a file that makes no
    /// sense is an error; one that is missing is to be created.
    fn add_to(self, known: &mut Vec<M>, complaint: &str) -> (r: Result<FollowUp, String>)
        ensures
            final(known)@ == old(known)@ + self.mappings(),
            (r is Err) == (self is Invalid),
            r is Err ==> r->Err_0@ == complaint@ + self->Invalid_0@,
            r is Ok ==> r->Ok_0 == self.follow_up(),
    {
        match self {
            MappingFile::Loaded(mut ms) => {
                known.append(&mut ms);
                Ok(FollowUp::Nothing)
            },
            MappingFile::Invalid(reason) => {
                let mut text = complaint.to_owned();
                text.append(reason.as_str());
                Err(text)
            },
            MappingFile::NotFound => Ok(FollowUp::CreateEmpty),
            MappingFile::Unreadable => Ok(FollowUp::Nothing),
        }
    }
}

/// The configuration of the engine. How an input mapping turns events into
/// commands is left to the mapping.
pub struct Config<M> {
    pub midi_in_mappings: Vec<M>,
    pub midi_out_mappings: Vec<MidiOutMapping>,
}

impl<M> Config<M> {
    /// A configuration without mappings.
    pub fn new() -> (r: Self)
        ensures
            r.midi_in_mappings@ == Seq::<M>::empty(),
            r.midi_out_mappings@ == Seq::<MidiOutMapping>::empty(),
    {
        Config { midi_in_mappings: Vec::new(), midi_out_mappings: Vec::new() }
    }

    /// Takes in the file of input mappings.
    pub fn read_midi_in(&mut self, file: MappingFile<M>) -> (r: Result<FollowUp, String>)
        ensures
            final(self).midi_in_mappings@ == old(self).midi_in_mappings@ + file.mappings(),
            final(self).midi_out_mappings == old(self).midi_out_mappings,
            (r is Err) == (file is Invalid),
            r is Err ==> r->Err_0@ == "Failed to load midi in mappings: "@ + file->Invalid_0@,
            r is Ok ==> r->Ok_0 == file.follow_up(),
    {
        file.add_to(&mut self.midi_in_mappings, "Failed to load midi in mappings: ")
    }

    /// Takes in the file of output mappings.
    pub fn read_midi_out(&mut self, file: MappingFile<MidiOutMapping>) -> (r: Result<
        FollowUp,
        String,
    >)
        ensures
            final(self).midi_out_mappings@ == old(self).midi_out_mappings@ + file.mappings(),
            final(self).midi_in_mappings == old(self).midi_in_mappings,
            (r is Err) == (file is Invalid),
            r is Err ==> r->Err_0@ == "Failed to load midi out mappings: "@ + file->Invalid_0@,
            r is Ok ==> r->Ok_0 == file.follow_up(),
    {
        file.add_to(&mut self.midi_out_mappings, "Failed to load midi out mappings: ")
    }
}

/// What reading the two files of mappings leads to.
pub struct ConfigReading<M> {
    /// The configuration, or what is wrong with a file.
    pub config: Result<Config<M>, String>,
    /// What is left to do about the file of input mappings.
    pub midi_in: FollowUp,
    /// What is left to do about the file of output mappings.
    pub midi_out: FollowUp,
}

/// Reads the configuration. A file of input mappings that makes no sense comes
/// first: nothing is then made of the file of output mappings.
pub fn read_config<M>(midi_in: MappingFile<M>, midi_out: MappingFile<MidiOutMapping>) -> (r:
    ConfigReading<M>)
    ensures
        (r.config is Err) == (midi_in is Invalid || midi_out is Invalid),
        midi_in is Invalid ==> r.config->Err_0@ == "Failed to load midi in mappings: "@
            + midi_in->Invalid_0@,
        !(midi_in is Invalid) && midi_out is Invalid ==> r.config->Err_0@
            == "Failed to load midi out mappings: "@ + midi_out->Invalid_0@,
        r.config is Ok ==> {
            &&& r.config->Ok_0.midi_in_mappings@ == midi_in.mappings()
            &&& r.config->Ok_0.midi_out_mappings@ == midi_out.mappings()
        },
        r.midi_in == midi_in.follow_up(),
        r.midi_out == (if midi_in is Invalid {
            FollowUp::Nothing
        } else {
            midi_out.follow_up()
        }),
{
    let mut config = Config::new();
    match config.read_midi_in(midi_in) {
        Err(e) => ConfigReading {
            config: Err(e),
            midi_in: FollowUp::Nothing,
            midi_out: FollowUp::Nothing,
        },
        Ok(about_in) => match config.read_midi_out(midi_out) {
            Err(e) => ConfigReading {
                config: Err(e),
                midi_in: about_in,
                midi_out: FollowUp::Nothing,
            },
            Ok(about_out) => {
                assert(config.midi_in_mappings@ =~= midi_in.mappings());
                assert(config.midi_out_mappings@ =~= midi_out.mappings());
                ConfigReading { config: Ok(config), midi_in: about_in, midi_out: about_out }
            },
        },
    }
}

} // verus!
