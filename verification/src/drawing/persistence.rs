//! Where drawings are stored: one JSON file per ticker and chart basis.

use crate::text::push_char;
use vstd::prelude::*;

verus! {

/// Name of the drawings file of a chart: `{ticker}_{basis}.json`.
pub open spec fn drawings_file_name_spec(ticker: Seq<char>, basis: Seq<char>) -> Seq<char> {
    ticker + seq!['_'] + basis + seq!['.', 'j', 's', 'o', 'n']
}

/// Path of the drawings file of a chart, relative to the application data
/// folder: `drawings/{ticker}_{basis}.json`.
pub open spec fn drawings_path_spec(ticker: Seq<char>, basis: Seq<char>) -> Seq<char> {
    seq!['d', 'r', 'a', 'w', 'i', 'n', 'g', 's', '/'] + drawings_file_name_spec(ticker, basis)
}

fn push_all(s: &mut String, chars: &[char])
    ensures
        final(s)@ == old(s)@ + chars@,
{
    let mut i: usize = 0;
    while i < chars.len()
        invariant
            i <= chars.len(),
            s@ == old(s)@ + chars@.take(i as int),
        decreases chars.len() - i,
    {
        push_char(s, chars[i]);
        i += 1;
        proof {
            assert(s@ =~= old(s)@ + chars@.take(i as int));
        }
    }
    proof {
        assert(chars@.take(chars.len() as int) =~= chars@);
    }
}

/// File name of the drawings of a chart.
pub fn drawings_file_name(ticker: &str, basis: &str) -> (r: String)
    ensures
        r@ == drawings_file_name_spec(ticker@, basis@),
{
    let mut s = String::from_str(ticker);
    push_char(&mut s, '_');
    s.append(basis);
    push_all(&mut s, &['.', 'j', 's', 'o', 'n']);
    proof {
        assert(s@ =~= drawings_file_name_spec(ticker@, basis@));
    }
    s
}

/// Path of the drawings file of a chart, relative to the data folder.
pub fn drawings_path(ticker: &str, basis: &str) -> (r: String)
    ensures
        r@ == drawings_path_spec(ticker@, basis@),
{
    let mut s = String::new();
    push_all(&mut s, &['d', 'r', 'a', 'w', 'i', 'n', 'g', 's', '/']);
    let name = drawings_file_name(ticker, basis);
    s.append(name.as_str());
    proof {
        assert(s@ =~= drawings_path_spec(ticker@, basis@));
    }
    s
}

} // verus!
