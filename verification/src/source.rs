//! A monitored source: an opaque id together with its derived display name.
use vstd::prelude::*;

use crate::text::chars_to_string;

verus! {

/// One trailing underscore, if present, is removed from the id.
pub open spec fn trim_one_trailing_underscore(s: Seq<char>) -> Seq<char> {
    if s.len() > 0 && s.last() == '_' {
        s.drop_last()
    } else {
        s
    }
}

/// Every underscore becomes a space.
pub open spec fn underscores_to_spaces(s: Seq<char>) -> Seq<char> {
    s.map_values(|c: char| if c == '_' { ' ' } else { c })
}

/// The display name derived from a source id: trim one trailing
/// underscore, then replace the remaining underscores with spaces.
pub open spec fn display_name_of(id: Seq<char>) -> Seq<char> {
    underscores_to_spaces(trim_one_trailing_underscore(id))
}

/// A monitored source; the display name is fixed by the id.
pub struct Aquarium {
    pub id: String,
    pub name: String,
}

impl Aquarium {
    /// Derives the display name from a source id.
    pub fn format_name(id: &str) -> (r: String)
        ensures
            r@ == display_name_of(id@),
    {
        let n: usize = id.unicode_len();
        let end: usize = if n > 0 && id.get_char(n - 1) == '_' {
            n - 1
        } else {
            n
        };
        let mut out: Vec<char> = Vec::new();
        let mut i: usize = 0;
        while i < end
            invariant
                n == id@.len(),
                end <= n,
                i <= end,
                out@ == underscores_to_spaces(id@.take(end as int)).take(i as int),
            decreases end - i,
        {
            let c = id.get_char(i);
            out.push(if c == '_' { ' ' } else { c });
            proof {
                assert(out@ =~= underscores_to_spaces(id@.take(end as int)).take(i + 1));
            }
            i += 1;
        }
        proof {
            assert(id@.take(end as int) =~= trim_one_trailing_underscore(id@));
            assert(underscores_to_spaces(trim_one_trailing_underscore(id@)).take(end as int)
                =~= display_name_of(id@));
        }
        chars_to_string(&out)
    }

    /// Builds a source from its id, deriving the display name.
    pub fn new(id: String) -> (r: Aquarium)
        ensures
            r.id@ == id@,
            r.name@ == display_name_of(id@),
    {
        let name = Self::format_name(id.as_str());
        Aquarium { id, name }
    }
}

} // verus!
