use vstd::prelude::*;
use vstd::string::StringExecFns;
use std::rc::Rc;
use crate::note::Note;
use crate::bar::Bar;
use crate::tempo::Tempo;
use crate::ctrl_chg::CtrlChg;

verus! {

/// Items of a score: notes, bars, tempos, and the dumper and soft pedal
/// changes.
#[derive(Clone, PartialEq, Debug)]
pub struct Models {
    pub notes: Vec<Note>,
    pub bars: Vec<Bar>,
    pub tempos: Vec<Tempo>,
    pub dumpers: Vec<CtrlChg>,
    pub softs: Vec<CtrlChg>,
}

/// Why clipboard text cannot be read as models.
#[derive(Debug, PartialEq, Clone)]
pub enum FromClipboardTextErr {
    /// The text is of another format version.
    VersionErr { detected_ver: u64 },
    /// The text is not in the format; with the text and what was wrong.
    CannotParse { err_json: String, detail: String },
    /// The text holds nothing.
    EmptyString,
    /// The text does not start with a format version.
    VersionNotU64 { err_json: String },
}

/// What clipboard text starts with: its first JSON value.
#[derive(Debug, PartialEq, Clone)]
pub enum LeadingValue {
    /// No value at all.
    Nothing,
    /// Text that starts no JSON value; with what is wrong.
    Unreadable(String),
    /// A number; with its value where it is a whole number of 64 bits.
    Number(Option<u64>),
    /// A value of another kind.
    Other,
}

/// The first JSON value of a text, and the byte offset just after it, as
/// `serde_json`'s streaming deserializer reads them.
pub uninterp spec fn leading_json(text: Seq<char>) -> (LeadingValue, usize);

/// `serde_json::Deserializer::from_str(..).into_iter::<Value>()`: the first
/// value of the text (told apart by kind), and the byte offset after it;
/// named by `leading_json`.
#[verifier::external_body]
fn read_leading_json(text: &str) -> (r: (LeadingValue, usize))
    ensures
        r == leading_json(text@),
{
    let mut stream = serde_json::Deserializer::from_str(text).into_iter::<serde_json::Value>();
    let first = match stream.next() {
        None => LeadingValue::Nothing,
        Some(Err(e)) => LeadingValue::Unreadable(e.to_string()),
        Some(Ok(serde_json::Value::Number(n))) => LeadingValue::Number(n.as_u64()),
        Some(Ok(_)) => LeadingValue::Other,
    };
    (first, stream.byte_offset())
}

/// Where the models start in clipboard text `json` whose first JSON value
/// is `lead` ending at `offset`: after a first value that is the format
/// version; else why the text cannot be read.
pub open spec fn body_offset(json: String, lead: LeadingValue, offset: usize) -> Result<usize, FromClipboardTextErr> {
    match lead {
        LeadingValue::Nothing => Err(FromClipboardTextErr::EmptyString),
        LeadingValue::Unreadable(detail) => Err(FromClipboardTextErr::CannotParse { err_json: json, detail }),
        LeadingValue::Number(Some(v)) => if v == 1 {
            Ok(offset)
        } else {
            Err(FromClipboardTextErr::VersionErr { detected_ver: v })
        },
        LeadingValue::Number(None) => Err(FromClipboardTextErr::VersionNotU64 { err_json: json }),
        LeadingValue::Other => Err(FromClipboardTextErr::VersionNotU64 { err_json: json }),
    }
}

/// The notes behind the handles.
pub open spec fn unwrapped(notes: Seq<Rc<Note>>) -> Seq<Note> {
    notes.map_values(|n: Rc<Note>| *n)
}

impl Models {
    /// The version of the clipboard format.
    pub const VERSION: u64 = 1;

    /// Where the models start in clipboard text whose first JSON value is
    /// `lead`, ending at byte `offset`: after the format version; else why
    /// the text cannot be read.
    pub fn body_after_version(json: String, lead: LeadingValue, offset: usize) -> (r: Result<usize, FromClipboardTextErr>)
        ensures
            r == body_offset(json, lead, offset),
    {
        match lead {
            LeadingValue::Nothing => Err(FromClipboardTextErr::EmptyString),
            LeadingValue::Unreadable(detail) => Err(FromClipboardTextErr::CannotParse { err_json: json, detail }),
            LeadingValue::Number(Some(v)) => {
                if v == Self::VERSION {
                    Ok(offset)
                } else {
                    Err(FromClipboardTextErr::VersionErr { detected_ver: v })
                }
            },
            LeadingValue::Number(None) => Err(FromClipboardTextErr::VersionNotU64 { err_json: json }),
            LeadingValue::Other => Err(FromClipboardTextErr::VersionNotU64 { err_json: json }),
        }
    }

    /// Where the models start in clipboard text (the byte after the format
    /// version), or why the text cannot be read.
    pub fn clipboard_body(json: String) -> (r: Result<usize, FromClipboardTextErr>)
        ensures
            r == body_offset(json, leading_json(json@).0, leading_json(json@).1),
    {
        let (lead, offset) = read_leading_json(json.as_str());
        Self::body_after_version(json, lead, offset)
    }

    /// Clipboard text: the format version, then the models' JSON text.
    pub fn clipboard_text(body: &str) -> (r: String)
        ensures
            r@ == "1"@ + body@,
    {
        let mut text = String::from_str("1");
        text.append(body);
        text
    }

    /// The notes behind the handles, in order.
    pub fn unwrap_rc(notes: &[Rc<Note>]) -> (r: Vec<Note>)
        ensures
            r@ == unwrapped(notes@),
    {
        let mut out: Vec<Note> = Vec::with_capacity(notes.len());
        let mut i: usize = 0;
        while i < notes.len()
            invariant
                i <= notes.len(),
                out@ == unwrapped(notes@.take(i as int)),
            decreases notes.len() - i,
        {
            let n: &Note = &*notes[i];
            out.push(Note { ..*n });
            proof {
                assert(notes@.take(i + 1) =~= notes@.take(i as int).push(notes@[i as int]));
                assert(unwrapped(notes@.take(i + 1)) =~= unwrapped(notes@.take(i as int)).push(*notes@[i as int]));
            }
            i = i + 1;
        }
        proof { assert(notes@.take(notes.len() as int) =~= notes@); }
        out
    }

    /// Empty models with room for the given numbers of items.
    pub fn with_capacity(note: usize, bar: usize, tempo: usize, dumper: usize, soft: usize) -> (r: Models)
        ensures
            r.is_empty_spec(),
            r.holds(Seq::empty(), Seq::empty(), Seq::empty(), Seq::empty(), Seq::empty()),
    {
        Models {
            notes: Vec::with_capacity(note),
            bars: Vec::with_capacity(bar),
            tempos: Vec::with_capacity(tempo),
            dumpers: Vec::with_capacity(dumper),
            softs: Vec::with_capacity(soft),
        }
    }

    /// These models hold exactly these items, in this order.
    pub open spec fn holds(self, notes: Seq<Note>, bars: Seq<Bar>, tempos: Seq<Tempo>, dumpers: Seq<CtrlChg>, softs: Seq<CtrlChg>) -> bool {
        &&& self.notes@ == notes
        &&& self.bars@ == bars
        &&& self.tempos@ == tempos
        &&& self.dumpers@ == dumpers
        &&& self.softs@ == softs
    }

    /// No item at all.
    pub open spec fn is_empty_spec(self) -> bool {
        &&& self.notes@.len() == 0
        &&& self.bars@.len() == 0
        &&& self.tempos@.len() == 0
        &&& self.dumpers@.len() == 0
        &&& self.softs@.len() == 0
    }

    pub fn empty() -> (r: Models)
        ensures
            r.is_empty_spec(),
            r.holds(Seq::empty(), Seq::empty(), Seq::empty(), Seq::empty(), Seq::empty()),
    {
        Models { notes: Vec::new(), bars: Vec::new(), tempos: Vec::new(), dumpers: Vec::new(), softs: Vec::new() }
    }

    /// These models with the notes behind the handles in place of the notes.
    pub fn with_notes(self, notes: &[Rc<Note>]) -> (r: Models)
        ensures
            r.notes@ == unwrapped(notes@),
            r.bars == self.bars,
            r.tempos == self.tempos,
            r.dumpers == self.dumpers,
            r.softs == self.softs,
    {
        let mut m = self;
        m.notes = Self::unwrap_rc(notes);
        m
    }

    pub fn with_bars(self, bars: Vec<Bar>) -> (r: Models)
        ensures
            r == (Models { bars, ..self }),
    {
        let mut m = self;
        m.bars = bars;
        m
    }

    pub fn with_tempos(self, tempos: Vec<Tempo>) -> (r: Models)
        ensures
            r == (Models { tempos, ..self }),
    {
        let mut m = self;
        m.tempos = tempos;
        m
    }

    pub fn with_dumpers(self, dumpers: Vec<CtrlChg>) -> (r: Models)
        ensures
            r == (Models { dumpers, ..self }),
    {
        let mut m = self;
        m.dumpers = dumpers;
        m
    }

    pub fn with_softs(self, softs: Vec<CtrlChg>) -> (r: Models)
        ensures
            r == (Models { softs, ..self }),
    {
        let mut m = self;
        m.softs = softs;
        m
    }
}

/// Changes of items of a score: each as the item before and after.
#[derive(Clone, PartialEq, Debug)]
pub struct ModelChanges {
    pub notes: Vec<(Note, Note)>,
    pub bars: Vec<(Bar, Bar)>,
    pub tempos: Vec<(Tempo, Tempo)>,
    pub dumpers: Vec<(CtrlChg, CtrlChg)>,
    pub softs: Vec<(CtrlChg, CtrlChg)>,
}

impl ModelChanges {
    /// No change at all.
    pub open spec fn is_empty_spec(self) -> bool {
        &&& self.notes@.len() == 0
        &&& self.bars@.len() == 0
        &&& self.tempos@.len() == 0
        &&& self.dumpers@.len() == 0
        &&& self.softs@.len() == 0
    }

    pub fn empty() -> (r: ModelChanges)
        ensures
            r.is_empty_spec(),
    {
        ModelChanges { notes: Vec::new(), bars: Vec::new(), tempos: Vec::new(), dumpers: Vec::new(), softs: Vec::new() }
    }

    /// No change, with room for the given numbers of changes.
    pub fn with_capacity(note: usize, bar: usize, tempo: usize, dumper: usize, soft: usize) -> (r: ModelChanges)
        ensures
            r.is_empty_spec(),
    {
        ModelChanges {
            notes: Vec::with_capacity(note),
            bars: Vec::with_capacity(bar),
            tempos: Vec::with_capacity(tempo),
            dumpers: Vec::with_capacity(dumper),
            softs: Vec::with_capacity(soft),
        }
    }

    pub fn with_notes(self, notes: Vec<(Note, Note)>) -> (r: ModelChanges)
        ensures
            r == (ModelChanges { notes, ..self }),
    {
        let mut m = self;
        m.notes = notes;
        m
    }

    pub fn with_bars(self, bars: Vec<(Bar, Bar)>) -> (r: ModelChanges)
        ensures
            r == (ModelChanges { bars, ..self }),
    {
        let mut m = self;
        m.bars = bars;
        m
    }

    pub fn with_tempos(self, tempos: Vec<(Tempo, Tempo)>) -> (r: ModelChanges)
        ensures
            r == (ModelChanges { tempos, ..self }),
    {
        let mut m = self;
        m.tempos = tempos;
        m
    }

    pub fn with_dumpers(self, dumpers: Vec<(CtrlChg, CtrlChg)>) -> (r: ModelChanges)
        ensures
            r == (ModelChanges { dumpers, ..self }),
    {
        let mut m = self;
        m.dumpers = dumpers;
        m
    }

    pub fn with_softs(self, softs: Vec<(CtrlChg, CtrlChg)>) -> (r: ModelChanges)
        ensures
            r == (ModelChanges { softs, ..self }),
    {
        let mut m = self;
        m.softs = softs;
        m
    }
}

} // verus!
