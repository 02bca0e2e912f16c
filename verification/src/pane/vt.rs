//! Plain text out of terminal output.

use vstd::prelude::*;

verus! {

/// Collects the characters that a terminal would print.
pub struct TextCollector {
    pub text: String,
}

impl vte::Perform for TextCollector {
    fn print(&mut self, c: char)
        ensures
            final(self).text@ == old(self).text@.push(c),
    {
        self.text.push(c);
    }
}

/// The characters that the `vte` parser prints for a text, in order.
pub uninterp spec fn visible_text(raw: Seq<char>) -> Seq<char>;

/// `vte::Parser::advance` on all of `raw`: the characters it prints, without
/// control characters and escape sequences. The result depends on `raw` alone.
#[verifier::external_body]
pub(crate) fn strip_escapes(raw: &str) -> (r: String)
    ensures
        r@ == visible_text(raw@),
{
    let mut parser = vte::Parser::new();
    let mut collector = TextCollector { text: String::new() };
    parser.advance(&mut collector, raw.as_bytes());
    collector.text
}

} // verus!
