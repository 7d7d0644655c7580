//! A waveform file and what was decoded from it.
//!
//! A `SteppedSimulation` is made for a path and holds nothing until it is
//! reloaded. Reading the file is not the decoder's part: whoever owns the
//! file system looks at the path, reads the file, and hands both findings
//! over as a `SourceFile`.

use std::path::PathBuf;
use vstd::prelude::*;
use crate::date::{current_time, resolve_date, Timestamp};
use crate::decode::{x_samples, y_samples, Dataset};
use crate::header::{count_in, flags_in, mode_in, texts, unknown_names, variables_in};
use crate::model::{
    ByteOrder, Encoding, Flags, Mode, ParseError, SimulationStats, SourceFault, SteppedVariable,
    VariableClass,
};
use crate::numbers::native_byte_order;
use crate::parse::{
    failure, file_encoding, file_fields, file_layout, file_payload, parse, Parsed,
};
use crate::sample::Value;
use crate::steps::{
    closed_step_size, counted_steps, lemma_points_are_step_lengths, lemma_steps_in_lockstep,
    split_steps, step_starts, total_length,
};
use crate::text::spells;
use crate::variables::variable_views;

verus! {

/// `std::path::PathBuf`: the path of a file. The decoder carries it along and
/// never looks inside.
#[verifier::external_type_specification]
#[verifier::external_body]
pub struct ExPathBuf(PathBuf);

/// What the file system says of a path, and the bytes of the file there.
#[derive(Debug)]
pub struct SourceFile {
    /// Whether the path exists.
    pub exists: bool,
    /// Whether the path names a regular file.
    pub is_file: bool,
    /// The extension of the path, if it has one.
    pub extension: Option<String>,
    /// The bytes of the file; of no account unless the path is a valid source.
    pub contents: Vec<u8>,
}

/// What is wrong with a path as the source of a waveform, if anything. The
/// checks are made in this order: the path exists; it names a regular file;
/// its extension is `raw`.
pub open spec fn source_fault(exists: bool, is_file: bool, extension: Option<Seq<char>>) -> Option<
    SourceFault,
> {
    if !exists {
        Some(SourceFault::Missing)
    } else if !is_file {
        Some(SourceFault::NotAFile)
    } else if extension != Some("raw"@) {
        Some(SourceFault::WrongExtension)
    } else {
        None
    }
}

impl SourceFile {
    /// What is wrong with the path, if anything.
    pub open spec fn fault(&self) -> Option<SourceFault> {
        source_fault(
            self.exists,
            self.is_file,
            match self.extension {
                Some(extension) => Some(extension@),
                None => None,
            },
        )
    }
}

/// Checks a path as the source of a waveform, from what the file system says
/// of it. No byte of the file is needed for this.
pub fn check_source(exists: bool, is_file: bool, extension: Option<&str>) -> (r: Result<
    (),
    ParseError,
>)
    ensures
        match r {
            Ok(()) => source_fault(
                exists,
                is_file,
                match extension {
                    Some(extension) => Some(extension@),
                    None => None,
                },
            ) is None,
            Err(e) => source_fault(
                exists,
                is_file,
                match extension {
                    Some(extension) => Some(extension@),
                    None => None,
                },
            ) matches Some(fault) && e == ParseError::InvalidSource(fault),
        },
{
    if !exists {
        return Err(ParseError::InvalidSource(SourceFault::Missing));
    }
    if !is_file {
        return Err(ParseError::InvalidSource(SourceFault::NotAFile));
    }
    match extension {
        Some(extension) => {
            let letters = crate::text::chars_of(extension);
            if spells(letters.as_slice(), "raw") {
                Ok(())
            } else {
                Err(ParseError::InvalidSource(SourceFault::WrongExtension))
            }
        },
        None => Err(ParseError::InvalidSource(SourceFault::WrongExtension)),
    }
}

/// Whether two variables have the same steps: as many, and each as long.
pub open spec fn same_shape(a: Seq<Seq<Value>>, b: Seq<Seq<Value>>) -> bool {
    &&& a.len() == b.len()
    &&& forall|k: int| 0 <= k < a.len() ==> (#[trigger] a[k]).len() == b[k].len()
}

/// The first variable at or behind index `from` that has the given name, or
/// the number of variables if none has.
pub open spec fn first_named(
    variables: Seq<(VariableClass, Seq<char>)>,
    name: Seq<char>,
    from: int,
) -> int
    decreases variables.len() - from,
{
    if from < 0 || from >= variables.len() {
        variables.len() as int
    } else if variables[from].1 == name {
        from
    } else {
        first_named(variables, name, from + 1)
    }
}

/// What a simulation holds.
pub struct SimulationView {
    /// The path of the file.
    pub path: PathBuf,
    /// The encoding of the header.
    pub encoding: Encoding,
    /// The analysis mode.
    pub mode: Mode,
    /// The storage flags.
    pub flags: Seq<Flags>,
    /// The date of the simulation.
    pub date: Timestamp,
    /// The counts.
    pub stats: SimulationStats,
    /// The dependent variables, each with class and name, in the order of
    /// declaration.
    pub variables: Seq<(VariableClass, Seq<char>)>,
    /// The steps of the independent variable.
    pub x: Seq<Seq<Value>>,
    /// The steps of each dependent variable.
    pub series: Seq<Seq<Seq<Value>>>,
    /// The names of the header fields that the decoder does not know.
    pub unknown: Seq<Seq<char>>,
}

impl SimulationView {
    /// What holds of every simulation, reloaded or not: each declared variable
    /// has its samples, in the same steps as the independent variable, and the
    /// steps of the independent variable hold one sample per point.
    pub open spec fn well_formed(self) -> bool {
        &&& self.series.len() == self.variables.len()
        &&& forall|j: int|
            0 <= j < self.series.len() ==> same_shape(#[trigger] self.series[j], self.x)
        &&& self.stats.points == total_length(self.x)
    }

    /// Whether nothing has been loaded.
    pub open spec fn empty(self) -> bool {
        &&& self.encoding == Encoding::UTF8
        &&& self.mode == Mode::Transient
        &&& self.flags.len() == 0
        &&& self.stats == SimulationStats { variables: 0, points: 0, steps: 0, step_size: 0 }
        &&& self.variables.len() == 0
        &&& self.x.len() == 0
        &&& self.series.len() == 0
        &&& self.unknown.len() == 0
    }

    /// Whether this is what the bytes of a file hold, the payload read in the
    /// given byte order. The date is not bound by this.
    pub open spec fn decoded_from(self, bytes: Seq<u8>, order: ByteOrder) -> bool {
        let fields = file_fields(bytes);
        let layout = file_layout(bytes);
        let payload = file_payload(bytes);
        let xs = x_samples(payload, layout, order);
        let starts = step_starts(xs, xs.len() as int);
        &&& self.encoding == file_encoding(bytes)
        &&& self.mode == mode_in(fields)
        &&& self.flags == flags_in(fields)
        &&& self.variables == variables_in(fields)
        &&& self.unknown == unknown_names(fields)
        &&& count_in(fields, "No. Points"@) == Some(self.stats.points)
        &&& count_in(fields, "No. Variables"@) == Some(self.stats.variables)
        &&& self.stats.step_size == closed_step_size(starts, payload.len() as int)
        &&& self.stats.steps == counted_steps(starts, self.stats.points as int)
        &&& self.x == split_steps(xs, starts)
        &&& self.series.len() == self.variables.len()
        &&& forall|j: int|
            0 <= j < self.series.len() ==> #[trigger] self.series[j] == split_steps(
                y_samples(payload, layout, order, j),
                starts,
            )
    }

    /// The steps of the variable with the given name: those of the independent
    /// variable for `x`, else those of the first declared variable of that
    /// name.
    pub open spec fn named(self, name: Seq<char>) -> Option<Seq<Seq<Value>>> {
        let found = first_named(self.variables, name, 0);
        if name == "x"@ {
            Some(self.x)
        } else if found < self.variables.len() && found < self.series.len() {
            Some(self.series[found])
        } else {
            None
        }
    }

    /// The samples of the variable with the given name in the given step, if
    /// the simulation has that variable and that step.
    pub open spec fn samples(self, name: Seq<char>, step: int) -> Option<Seq<Value>> {
        match self.named(name) {
            Some(steps) => if 0 <= step < steps.len() {
                Some(steps[step])
            } else {
                None
            },
            None => None,
        }
    }
}

/// What is decoded from a file is well formed: the steps of the independent
/// variable hold one sample for each point that the header counts, and every
/// dependent variable has the same steps, as many and each as long.
pub proof fn lemma_decoded_is_well_formed(view: SimulationView, bytes: Seq<u8>, order: ByteOrder)
    requires
        view.decoded_from(bytes, order),
    ensures
        view.well_formed(),
{
    let layout = file_layout(bytes);
    let payload = file_payload(bytes);
    let xs = x_samples(payload, layout, order);
    lemma_points_are_step_lengths(xs);
    assert forall|j: int| 0 <= j < view.series.len() implies same_shape(
        #[trigger] view.series[j],
        view.x,
    ) by {
        lemma_steps_in_lockstep(xs, y_samples(payload, layout, order, j));
    }
}

/// What was decoded from a file.
#[derive(Debug)]
struct Contents {
    encoding: Encoding,
    mode: Mode,
    flags: Vec<Flags>,
    date: Timestamp,
    stats: SimulationStats,
    variables: Vec<SteppedVariable>,
    data: Dataset,
    unknown: Vec<String>,
}

impl Contents {
    spec fn series_views(&self) -> Seq<Seq<Seq<Value>>> {
        Seq::new(self.data.series@.len(), |j: int| self.data.y_steps(j))
    }

    spec fn view_at(&self, path: PathBuf) -> SimulationView {
        SimulationView {
            path,
            encoding: self.encoding,
            mode: self.mode,
            flags: self.flags@,
            date: self.date,
            stats: self.stats,
            variables: variable_views(self.variables@),
            x: self.data.x_steps(),
            series: self.series_views(),
            unknown: texts(self.unknown@),
        }
    }

    #[verifier::type_invariant]
    spec fn well_formed(&self) -> bool {
        &&& self.data.series@.len() == self.variables@.len()
        &&& forall|j: int|
            0 <= j < self.data.series@.len() ==> same_shape(
                #[trigger] self.data.y_steps(j),
                self.data.x_steps(),
            )
        &&& self.stats.points == total_length(self.data.x_steps())
    }

    /// The contents of a simulation that has not been loaded, with the date.
    fn new(date: Timestamp) -> (contents: Contents)
        ensures
            forall|path: PathBuf| (#[trigger] contents.view_at(path)).empty(),
            forall|path: PathBuf| (#[trigger] contents.view_at(path)).date == date,
    {
        let contents = Contents {
            encoding: Encoding::UTF8,
            mode: Mode::Transient,
            flags: Vec::new(),
            date,
            stats: SimulationStats { variables: 0, points: 0, steps: 0, step_size: 0 },
            variables: Vec::new(),
            data: Dataset { x: Vec::new(), series: Vec::new() },
            unknown: Vec::new(),
        };
        assert(contents.data.x_steps() =~= Seq::empty());
        contents
    }

    /// The contents that a decoded file makes.
    fn from_parsed(parsed: Parsed, date: Timestamp, Ghost(bytes): Ghost<Seq<u8>>, Ghost(order): Ghost<ByteOrder>) -> (contents: Contents)
        requires
            parsed.reads(bytes, order),
            failure(bytes) is None,
        ensures
            forall|path: PathBuf| (#[trigger] contents.view_at(path)).decoded_from(bytes, order),
            contents.date == date,
    {
        let ghost shown = SimulationView {
            path: arbitrary(),
            encoding: parsed.encoding,
            mode: parsed.header.mode,
            flags: parsed.header.flags@,
            date,
            stats: SimulationStats {
                variables: parsed.header.variables,
                points: parsed.header.points,
                steps: parsed.decoded.steps,
                step_size: parsed.decoded.step_size,
            },
            variables: variable_views(parsed.header.declared@),
            x: parsed.decoded.data.x_steps(),
            series: Seq::new(
                parsed.decoded.data.series@.len(),
                |j: int| parsed.decoded.data.y_steps(j),
            ),
            unknown: texts(parsed.header.unknown@),
        };
        proof {
            lemma_decoded_is_well_formed(shown, bytes, order);
            assert forall|j: int| 0 <= j < parsed.decoded.data.series@.len() implies same_shape(
                #[trigger] parsed.decoded.data.y_steps(j),
                parsed.decoded.data.x_steps(),
            ) by {
                assert(same_shape(shown.series[j], shown.x));
            }
        }
        let contents = Contents {
            encoding: parsed.encoding,
            mode: parsed.header.mode,
            flags: parsed.header.flags,
            date,
            stats: SimulationStats {
                variables: parsed.header.variables,
                points: parsed.header.points,
                steps: parsed.decoded.steps,
                step_size: parsed.decoded.step_size,
            },
            variables: parsed.header.declared,
            data: parsed.decoded.data,
            unknown: parsed.header.unknown,
        };
        contents
    }
}

/// A waveform file and what was decoded from it.
#[derive(Debug)]
pub struct SteppedSimulation {
    path: PathBuf,
    contents: Contents,
}

impl View for SteppedSimulation {
    type V = SimulationView;

    closed spec fn view(&self) -> SimulationView {
        self.contents.view_at(self.path)
    }
}

impl SteppedSimulation {
    /// A simulation for the file at `path`, with nothing loaded yet.
    pub fn new(path: PathBuf) -> (simulation: Self)
        ensures
            simulation@.path == path,
            simulation@.empty(),
            simulation@.well_formed(),
    {
        let contents = Contents::new(current_time());
        proof {
            use_type_invariant(&contents);
        }
        SteppedSimulation { path, contents }
    }

    /// Decodes the file anew and replaces all that was loaded before.
    ///
    /// The source is checked first; a source that is not valid is refused
    /// whatever its bytes are. Then the bytes are decoded, the payload read in
    /// the byte order of the machine. On any failure the simulation stays as it
    /// was.
    pub fn reload(&mut self, source: &SourceFile) -> (r: Result<(), ParseError>)
        ensures
            final(self)@.path == old(self)@.path,
            final(self)@.well_formed(),
            match r {
                Ok(()) => {
                    &&& source.fault() is None
                    &&& failure(source.contents@) is None
                    &&& exists|order: ByteOrder|
                        #[trigger] final(self)@.decoded_from(source.contents@, order)
                },
                Err(e) => {
                    &&& final(self)@ == old(self)@
                    &&& match source.fault() {
                        Some(fault) => e == ParseError::InvalidSource(fault),
                        None => failure(source.contents@) == Some(e),
                    }
                },
            },
    {
        proof {
            use_type_invariant(&self.contents);
        }
        let extension = match &source.extension {
            Some(extension) => Some(extension.as_str()),
            None => None,
        };
        check_source(source.exists, source.is_file, extension)?;
        let order = native_byte_order();
        let parsed = parse(source.contents.as_slice(), order)?;
        let date = resolve_date(&parsed.header.date, current_time());
        let contents = Contents::from_parsed(parsed, date, Ghost(source.contents@), Ghost(order));
        proof {
            use_type_invariant(&contents);
        }
        self.contents = contents;
        assert(self@.decoded_from(source.contents@, order));
        Ok(())
    }

    /// The samples of the variable with the given name in the given step, or
    /// in the first step where none is given; `None` where the simulation has
    /// no variable of that name or no such step.
    pub fn get(&self, name: &str, step: Option<u16>) -> (r: Option<&Vec<Value>>)
        ensures
            match r {
                Some(samples) => self@.samples(
                    name@,
                    match step {
                        Some(step) => step as int,
                        None => 0,
                    },
                ) == Some(samples@),
                None => self@.samples(
                    name@,
                    match step {
                        Some(step) => step as int,
                        None => 0,
                    },
                ) is None,
            },
    {
        proof {
            use_type_invariant(&self.contents);
        }
        let index: usize = match step {
            Some(step) => step as usize,
            None => 0,
        };
        let letters = crate::text::chars_of(name);
        if spells(letters.as_slice(), "x") {
            return if index < self.contents.data.x.len() {
                Some(&self.contents.data.x[index])
            } else {
                None
            };
        }
        let ghost variables = variable_views(self.contents.variables@);
        let wanted = name.to_owned();
        let mut j: usize = 0;
        while j < self.contents.variables.len()
            invariant
                wanted@ == name@,
                j <= self.contents.variables@.len(),
                self.contents.data.series@.len() == self.contents.variables@.len(),
                name@ != "x"@,
                index == match step {
                    Some(step) => step as int,
                    None => 0,
                },
                variables == variable_views(self.contents.variables@),
                first_named(variables, name@, 0) == first_named(variables, name@, j as int),
            decreases self.contents.variables.len() - j,
        {
            if self.contents.variables[j].name == wanted {
                assert(variables[j as int].1 == name@);
                assert(self@.series[j as int] == self.contents.data.y_steps(j as int));
                assert(self@.named(name@) == Some(self.contents.data.y_steps(j as int)));
                return if index < self.contents.data.series[j].len() {
                    Some(&self.contents.data.series[j][index])
                } else {
                    None
                };
            }
            j = j + 1;
        }
        None
    }

    /// The samples of the independent variable in the first step.
    pub fn get_x(&self) -> (r: Option<&Vec<Value>>)
        ensures
            match r {
                Some(samples) => self@.x.len() > 0 && samples@ == self@.x[0],
                None => self@.x.len() == 0,
            },
    {
        proof {
            reveal_strlit("x");
        }
        self.get("x", None)
    }

    /// The counts of the simulation.
    pub fn get_stats(&self) -> (stats: &SimulationStats)
        ensures
            *stats == self@.stats,
            self@.well_formed(),
    {
        proof {
            use_type_invariant(&self.contents);
        }
        &self.contents.stats
    }

    /// The dependent variables, in the order of declaration.
    pub fn get_variables(&self) -> (variables: &Vec<SteppedVariable>)
        ensures
            variable_views(variables@) == self@.variables,
    {
        &self.contents.variables
    }

    /// The path of the file.
    pub fn path(&self) -> (path: &PathBuf)
        ensures
            *path == self@.path,
    {
        &self.path
    }

    /// The encoding of the header.
    pub fn encoding(&self) -> (encoding: Encoding)
        ensures
            encoding == self@.encoding,
    {
        self.contents.encoding
    }

    /// The analysis mode.
    pub fn mode(&self) -> (mode: Mode)
        ensures
            mode == self@.mode,
    {
        self.contents.mode
    }

    /// The storage flags, in the order in which the header names them.
    pub fn flags(&self) -> (flags: &Vec<Flags>)
        ensures
            flags@ == self@.flags,
    {
        &self.contents.flags
    }

    /// The date of the simulation.
    pub fn date(&self) -> (date: Timestamp)
        ensures
            date == self@.date,
    {
        self.contents.date
    }

    /// The names of the header fields that the decoder does not know, for
    /// whoever wants to report them.
    pub fn unknown_fields(&self) -> (names: &Vec<String>)
        ensures
            texts(names@) == self@.unknown,
    {
        &self.contents.unknown
    }
}

} // verus!
