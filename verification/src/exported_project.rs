use vstd::prelude::*;
use crate::bar::Bar;
use crate::ctrl_chg::CtrlChg;
use crate::key::Key;
use crate::models::Models;
use crate::note::Note;
use crate::rhythm::Rhythm;
use crate::tempo::Tempo;

verus! {

/// Items of a score as they are exchanged with other programs: the key and
/// time signature where they are given, and the notes, bars, tempos and
/// pedal changes.
#[derive(Clone, PartialEq, Debug)]
pub struct ExportedProject {
    pub key: Option<Key>,
    pub rhythm: Option<Rhythm>,
    pub notes: Vec<Note>,
    pub bars: Vec<Bar>,
    pub tempos: Vec<Tempo>,
    pub dumpers: Vec<CtrlChg>,
    pub softs: Vec<CtrlChg>,
}

impl ExportedProject {
    /// The items, without the key and time signature.
    pub fn to_models(self) -> (r: Models)
        ensures
            r.notes == self.notes,
            r.bars == self.bars,
            r.tempos == self.tempos,
            r.dumpers == self.dumpers,
            r.softs == self.softs,
    {
        Models { notes: self.notes, bars: self.bars, tempos: self.tempos, dumpers: self.dumpers, softs: self.softs }
    }
}

} // verus!
