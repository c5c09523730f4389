use crate::text::{eq_ignore_ascii_case, eq_ignoring_ascii_case, strs};
use vstd::prelude::*;

verus! {

/// Whether a text names something that goes by `name` or by one of
/// `aliases`, the case of ASCII letters aside.
pub open spec fn answers_to(name: Seq<char>, aliases: Seq<Seq<char>>, text: Seq<char>) -> bool {
    eq_ignoring_ascii_case(name, text) || exists|i: int|
        0 <= i < aliases.len() && eq_ignoring_ascii_case(#[trigger] aliases[i], text)
}

/// Something that players can refer to by a name or by an alias.
pub trait Named {
    /// The name.
    spec fn name_text(&self) -> Seq<char>;

    /// The aliases, in order.
    spec fn alias_texts(&self) -> Seq<Seq<char>>;

    fn get_name(&self) -> (name: &String)
        ensures
            name@ == self.name_text(),
    ;

    fn get_aliases(&self) -> (aliases: &[String])
        ensures
            strs(aliases@) == self.alias_texts(),
    ;

    fn matches(&self, str: &str) -> (r: bool)
        ensures
            r == answers_to(self.name_text(), self.alias_texts(), str@),
    {
        if eq_ignore_ascii_case(self.get_name().as_str(), str) {
            return true;
        }
        let aliases = self.get_aliases();
        let mut i: usize = 0;
        while i < aliases.len()
            invariant
                i <= aliases@.len(),
                strs(aliases@) == self.alias_texts(),
                forall|j: int|
                    0 <= j < i ==> !eq_ignoring_ascii_case(#[trigger] self.alias_texts()[j], str@),
            decreases aliases@.len() - i,
        {
            assert(strs(aliases@)[i as int] == aliases@[i as int]@);
            if eq_ignore_ascii_case(aliases[i].as_str(), str) {
                return true;
            }
            i = i + 1;
        }
        false
    }
}

} // verus!
