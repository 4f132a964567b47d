//! Order-preserving aggregation of per-input head output: each input
//! contributes output chunks or one diagnostic line, collected in input
//! order and rendered to separate success and diagnostic streams.
use vstd::prelude::*;

verus! {

/// One collected line: an output chunk for the primary stream, or a
/// diagnostic line for the secondary stream.
#[derive(Debug)]
pub enum HeadrFileCount {
    Failure(String),
    Output(String),
}

/// The ghost form of one collected line.
pub enum HeadrLine {
    Failure(Seq<char>),
    Output(Seq<char>),
}

impl View for HeadrFileCount {
    type V = HeadrLine;

    open spec fn view(&self) -> HeadrLine {
        match self {
            HeadrFileCount::Failure(s) => HeadrLine::Failure(s@),
            HeadrFileCount::Output(s) => HeadrLine::Output(s@),
        }
    }
}

impl DeepView for HeadrFileCount {
    type V = HeadrLine;

    open spec fn deep_view(&self) -> HeadrLine {
        self.view()
    }
}

/// The diagnostic line one failed input contributes:
/// `headr: <filename>: <reason>`, newline-terminated.
pub open spec fn error_line(filename: Seq<char>, err: Seq<char>) -> Seq<char> {
    "headr: "@ + filename + ": "@ + err + "\n"@
}

/// A sequence of strings, each tagged as an output chunk.
pub open spec fn out_lines(ss: Seq<Seq<char>>) -> Seq<HeadrLine> {
    ss.map_values(|s: Seq<char>| HeadrLine::Output(s))
}

/// What the primary stream shows: the output chunks, concatenated in order.
pub open spec fn rendered_out(items: Seq<HeadrLine>) -> Seq<char>
    decreases items.len(),
{
    if items.len() == 0 {
        Seq::empty()
    } else {
        rendered_out(items.drop_last()) + (match items.last() {
            HeadrLine::Output(s) => s,
            HeadrLine::Failure(_) => Seq::empty(),
        })
    }
}

/// What the diagnostic stream shows: the failure lines, concatenated in
/// order.
pub open spec fn rendered_err(items: Seq<HeadrLine>) -> Seq<char>
    decreases items.len(),
{
    if items.len() == 0 {
        Seq::empty()
    } else {
        rendered_err(items.drop_last()) + (match items.last() {
            HeadrLine::Output(_) => Seq::empty(),
            HeadrLine::Failure(s) => s,
        })
    }
}

/// The collected results of one run, in input order. Never reorders, never
/// drops an item.
pub struct HeadrResult {
    outputs: Vec<HeadrFileCount>,
}

impl View for HeadrResult {
    type V = Seq<HeadrLine>;

    closed spec fn view(&self) -> Seq<HeadrLine> {
        self.outputs.deep_view()
    }
}

impl HeadrResult {
    /// Starts an empty collection.
    pub fn new() -> (r: Self)
        ensures
            r@ == Seq::<HeadrLine>::empty(),
    {
        let r = HeadrResult { outputs: Vec::new() };
        proof {
            assert(r@ =~= Seq::<HeadrLine>::empty());
        }
        r
    }

    /// Records the diagnostic line for one failed input.
    pub fn add_error(&mut self, filename: &str, err: &str)
        ensures
            final(self)@ == old(self)@.push(HeadrLine::Failure(error_line(filename@, err@))),
    {
        let mut line = String::from_str("headr: ");
        line.append(filename);
        line.append(": ");
        line.append(err);
        line.append("\n");
        proof {
            assert(line@ =~= error_line(filename@, err@));
        }
        self.outputs.push(HeadrFileCount::Failure(line));
        proof {
            assert(self@ =~= old(self)@.push(HeadrLine::Failure(error_line(filename@, err@))));
        }
    }

    /// Records the blank separator line between the outputs of two inputs.
    pub fn add_newline(&mut self)
        ensures
            final(self)@ == old(self)@.push(HeadrLine::Output("\n"@)),
    {
        self.outputs.push(HeadrFileCount::Output(String::from_str("\n")));
        proof {
            assert(self@ =~= old(self)@.push(HeadrLine::Output("\n"@)));
        }
    }

    /// Records the output chunks of one successfully read input, in order.
    pub fn add_outputs(&mut self, outputs: &Vec<String>)
        ensures
            final(self)@ == old(self)@ + out_lines(outputs.deep_view()),
    {
        let mut i: usize = 0;
        while i < outputs.len()
            invariant
                i <= outputs@.len(),
                self@ == old(self)@ + out_lines(outputs.deep_view().take(i as int)),
            decreases outputs@.len() - i,
        {
            let line = outputs[i].clone();
            self.outputs.push(HeadrFileCount::Output(line));
            proof {
                let dv = outputs.deep_view();
                let pre = old(self)@ + out_lines(dv.take(i as int));
                assert(self@ =~= pre.push(HeadrLine::Output(line@)));
                assert(line@ == dv[i as int]);
                assert(pre.push(HeadrLine::Output(dv[i as int])) =~= old(self)@ + out_lines(
                    dv.take(i + 1),
                ));
            }
            i += 1;
        }
        proof {
            assert(outputs.deep_view().take(outputs@.len() as int) =~= outputs.deep_view());
        }
    }

    /// Renders the collection to the pair of streams: all output chunks in
    /// order on the primary one, all diagnostic lines in order on the
    /// secondary one.
    pub fn print_results(&self) -> (r: (String, String))
        ensures
            r.0@ == rendered_out(self@),
            r.1@ == rendered_err(self@),
    {
        let mut out = String::new();
        let mut err = String::new();
        let mut i: usize = 0;
        while i < self.outputs.len()
            invariant
                i <= self@.len(),
                self@.len() == self.outputs@.len(),
                out@ == rendered_out(self@.take(i as int)),
                err@ == rendered_err(self@.take(i as int)),
            decreases self@.len() - i,
        {
            match &self.outputs[i] {
                HeadrFileCount::Output(s) => {
                    out.append(s.as_str());
                },
                HeadrFileCount::Failure(s) => {
                    err.append(s.as_str());
                },
            }
            proof {
                assert(self@.take(i + 1).drop_last() =~= self@.take(i as int));
                assert(self@.take(i + 1).last() == self@[i as int]);
            }
            i += 1;
        }
        proof {
            assert(self@.take(self@.len() as int) =~= self@);
        }
        (out, err)
    }
}

} // verus!
