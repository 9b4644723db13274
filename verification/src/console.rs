//! The console, modelled as data.
//!
//! Statements read input and write output through a `Console` value: the
//! host feeds queued input lines in and writes the collected output
//! fragments out. A fragment is a piece of one output line; a `"\n"`
//! fragment ends the line.

use vstd::prelude::*;

verus! {

/// The sequence of character sequences behind a vector of strings.
pub open spec fn texts(v: Seq<String>) -> Seq<Seq<char>> {
    v.map_values(|s: String| s@)
}

/// Queued input lines and collected output fragments.
pub struct Console {
    /// Lines waiting to be read by INPUT, first to be read at the front.
    pub input: Vec<String>,
    /// Output fragments in the order they were written.
    pub output: Vec<String>,
}

impl Console {
    /// The characters of the queued input lines.
    pub open spec fn in_text(&self) -> Seq<Seq<char>> {
        texts(self.input@)
    }

    /// The characters of the output fragments written so far.
    pub open spec fn out_text(&self) -> Seq<Seq<char>> {
        texts(self.output@)
    }

    /// A console with no queued input and no output.
    pub fn new() -> (c: Console)
        ensures
            c.in_text() == Seq::<Seq<char>>::empty(),
            c.out_text() == Seq::<Seq<char>>::empty(),
    {
        let c = Console { input: Vec::new(), output: Vec::new() };
        proof {
            assert(c.in_text() =~= Seq::<Seq<char>>::empty());
            assert(c.out_text() =~= Seq::<Seq<char>>::empty());
        }
        c
    }

    /// Queue one more input line after the ones already waiting.
    pub fn feed(&mut self, line: String)
        ensures
            final(self).in_text() == old(self).in_text().push(line@),
            final(self).out_text() == old(self).out_text(),
    {
        self.input.push(line);
        proof {
            assert(final(self).in_text() =~= old(self).in_text().push(line@));
        }
    }

    /// Append one output fragment.
    pub fn write(&mut self, s: String)
        ensures
            final(self).out_text() == old(self).out_text().push(s@),
            final(self).in_text() == old(self).in_text(),
    {
        self.output.push(s);
        proof {
            assert(final(self).out_text() =~= old(self).out_text().push(s@));
        }
    }

    /// Take the next queued input line, front first.
    pub fn read_line(&mut self) -> (r: Option<String>)
        ensures
            final(self).out_text() == old(self).out_text(),
            match r {
                Some(l) => old(self).in_text().len() > 0 && l@ == old(self).in_text()[0]
                    && final(self).in_text() == old(self).in_text().drop_first(),
                None => old(self).in_text().len() == 0
                    && final(self).in_text() == old(self).in_text(),
            },
    {
        if self.input.len() == 0 {
            None
        } else {
            let l = self.input.remove(0);
            proof {
                assert(final(self).in_text() =~= old(self).in_text().drop_first());
            }
            Some(l)
        }
    }
}

} // verus!
