//! Text-only video output.
//!
//! A display is modelled by the characters it has been handed, in order: what the hardware
//! does with them (wrapping, scrolling) is its own business.

use vstd::prelude::*;
use vstd::string::*;

verus! {

/// Text-only video output hardware.
pub trait TextDisplay: Sync + Send {
    /// The characters handed to the display so far, oldest first.
    spec fn written(&self) -> Seq<char>;

    /// Write a single character to the video hardware.
    fn print_char(&mut self, d: char)
        ensures
            final(self).written() == old(self).written().push(d),
    ;

    /// Write every character of a string, in order.
    fn print_str(&mut self, d: &str)
        ensures
            final(self).written() == old(self).written() + d@,
    {
        let n = d.unicode_len();
        let mut i: usize = 0;
        while i < n
            invariant
                i <= n,
                n == d@.len(),
                self.written() == old(self).written() + d@.subrange(0, i as int),
            decreases n - i,
        {
            let c = d.get_char(i);
            self.print_char(c);
            assert(d@.subrange(0, i + 1) =~= d@.subrange(0, i as int).push(c));
            i += 1;
        }
        assert(d@.subrange(0, n as int) =~= d@);
    }

    /// Repeatedly prints a given character a certain number of times: `n` times.
    fn print_repeat_letter(&mut self, d: char, n: u8)
        ensures
            final(self).written() == old(self).written() + Seq::new(n as nat, |_i: int| d),
    {
        let mut k: u8 = 0;
        while k < n
            invariant
                k <= n,
                self.written() == old(self).written() + Seq::new(k as nat, |_i: int| d),
            decreases n - k,
        {
            self.print_char(d);
            assert(Seq::new((k + 1) as nat, |_i: int| d) =~= Seq::new(k as nat, |_i: int| d).push(d));
            k += 1;
        }
    }
}

/// A vector of characters records everything printed to it.
impl TextDisplay for Vec<char> {
    open spec fn written(&self) -> Seq<char> {
        self@
    }

    fn print_char(&mut self, d: char) {
        self.push(d);
    }
}

} // verus!
