use vstd::prelude::*;
use vstd::string::StringExecFns;

verus! {

/// One entry offered to the user: the line that is shown, and the value that
/// is handed over when the entry is chosen.
#[derive(Debug, Clone, PartialEq, Eq)]
pub struct SearchResult {
    title: String,
    extra_info: String,
}

/// What a `SearchResult` stands for: its two texts as character sequences.
#[verifier::ext_equal]
pub struct SearchResultView {
    pub title: Seq<char>,
    pub extra_info: Seq<char>,
}

impl View for SearchResult {
    type V = SearchResultView;

    closed spec fn view(&self) -> SearchResultView {
        SearchResultView { title: self.title@, extra_info: self.extra_info@ }
    }
}

impl SearchResult {
    /// A result with the given title and an empty payload.
    pub fn new(title: &str) -> (r: Self)
        ensures
            r@.title == title@,
            r@.extra_info == Seq::<char>::empty(),
    {
        SearchResult { title: String::from_str(title), extra_info: String::new() }
    }

    /// The same result with its payload replaced by `extra_info`.
    pub fn set_extra_info(self, extra_info: &str) -> (r: Self)
        ensures
            r@.title == self@.title,
            r@.extra_info == extra_info@,
    {
        SearchResult { title: self.title, extra_info: String::from_str(extra_info) }
    }

    /// The line shown to the user.
    pub fn title(&self) -> (t: &str)
        ensures
            t@ == self@.title,
    {
        self.title.as_str()
    }

    /// Whether both results show the same line.
    pub fn same_title(&self, other: &SearchResult) -> (same: bool)
        ensures
            same == (self@.title == other@.title),
    {
        self.title == other.title
    }

    /// The value handed over when the result is chosen.
    pub fn extra_info(&self) -> (t: &str)
        ensures
            t@ == self@.extra_info,
    {
        self.extra_info.as_str()
    }
}

/// What the results of `s` stand for, one by one.
pub open spec fn views(s: Seq<SearchResult>) -> Seq<SearchResultView> {
    s.map_values(|r: SearchResult| r@)
}

/// The text that stands between an expression and its value in a title.
pub open spec fn separator() -> Seq<char> {
    seq![' ', '=', ' ']
}

/// The result that announces `answer` as a value of `term`: the title reads
/// `term`, the separator, `answer`; the payload is `answer` alone.
pub open spec fn answer_view(term: Seq<char>, answer: Seq<char>) -> SearchResultView {
    SearchResultView { title: term + separator() + answer, extra_info: answer }
}

/// Builds the result for one value of an expression, from the expression's
/// canonical text and the value written as a plain number.
pub fn result(term: &str, answer: &str) -> (r: SearchResult)
    ensures
        r@ == answer_view(term@, answer@),
{
    let mut title = String::from_str(term);
    title.append(" = ");
    title.append(answer);
    proof {
        reveal_strlit(" = ");
        assert(" = "@ =~= separator());
    }
    SearchResult::new(title.as_str()).set_extra_info(answer)
}

} // verus!
