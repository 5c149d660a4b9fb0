//! The Audio Toolbox framework.
use vstd::prelude::*;

pub mod audio_file;
pub mod audio_file_laws;
pub mod audio_handle_laws;
pub mod audio_stream_laws;

verus! {

pub struct State {
    pub audio_file: audio_file::State,
}

impl Default for State {
    fn default() -> (r: State)
        ensures
            r.audio_file.audio_files@.dom().is_empty(),
            r.audio_file.audio_file_streams@.dom().is_empty(),
    {
        State { audio_file: audio_file::State::default() }
    }
}

} // verus!
