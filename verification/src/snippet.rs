//! Script snippets as the game's configuration gives them.

use vstd::prelude::*;

verus! {

/// A script snippet: its source text, if any, and the packages it imports,
/// each as `(alias, package path)`.  A snippet without text does nothing when
/// run.
pub struct Snippet {
    pub imports: Vec<(String, String)>,
    pub text: Option<String>,
}

/// A snippet by its contents.
pub ghost struct SnippetView {
    pub imports: Seq<(Seq<char>, Seq<char>)>,
    pub text: Option<Seq<char>>,
}

/// The import list by its contents.
pub open spec fn imports_view(s: Seq<(String, String)>) -> Seq<(Seq<char>, Seq<char>)> {
    Seq::new(s.len(), |i: int| (s[i].0@, s[i].1@))
}

impl View for Snippet {
    type V = SnippetView;

    open spec fn view(&self) -> SnippetView {
        SnippetView {
            imports: imports_view(self.imports@),
            text: match self.text {
                Some(t) => Some(t@),
                None => None,
            },
        }
    }
}

impl Snippet {
    /// A snippet that does nothing.
    pub fn empty() -> (r: Snippet)
        ensures
            r@.imports.len() == 0,
            r@.text is None,
    {
        let r = Snippet { imports: Vec::new(), text: None };
        assert(r@.imports =~= Seq::<(Seq<char>, Seq<char>)>::empty());
        r
    }
}

} // verus!
