use crate::evaluation::{Answer, Evaluation};
use crate::listing::{
    dedup_by_title, is_listing_of, lemma_listing_unique, lemma_without_repeats, shows_title,
    sort_by_title, without_repeats,
};
use crate::result::{answer_view, result, separator, views, SearchResult};
use vstd::prelude::*;
use vstd::std_specs::iter::IteratorSpec;

verus! {

/// The name under which the plugin is shown.
pub const NAME: &'static str = "Math";

/// The colour of the plugin's name, red, green, blue and alpha packed into one word.
pub const NAME_COLOR: u32 = 0x16BE2FFF;

/// The characters of `NAME`.
pub open spec fn name_text() -> Seq<char> {
    seq!['M', 'a', 't', 'h']
}

/// A character with the colour in which it is drawn.
#[derive(Debug, Clone, Copy, PartialEq, Eq, Structural)]
pub struct ColoredChar {
    pub ch: char,
    pub color: u32,
}

/// The character `ch` in the colour `color`.
pub open spec fn paint(ch: char, color: u32) -> ColoredChar {
    ColoredChar { ch, color }
}

/// `text` with every character in the one colour `color`.
pub open spec fn colored(text: Seq<char>, color: u32) -> Seq<ColoredChar> {
    Seq::new(text.len(), |i: int| paint(text[i], color))
}

impl ColoredChar {
    /// Colours every character of `text` with `color`.
    pub fn from_string(text: &str, color: u32) -> (r: Vec<ColoredChar>)
        ensures
            r@ == colored(text@, color),
    {
        let mut out: Vec<ColoredChar> = Vec::new();
        let mut rest = text.chars();
        assert(out@ + colored(rest.remaining(), color) =~= colored(text@, color));
        loop
            invariant
                rest.obeys_prophetic_iter_laws(),
                rest.decrease() is Some,
                out@ + colored(rest.remaining(), color) == colored(text@, color),
            decreases rest.decrease()->0,
        {
            let ghost done = out@;
            let ghost ahead = rest.remaining();
            let next = rest.next();
            match next {
                Some(ch) => {
                    out.push(ColoredChar { ch, color });
                    assert(out@ == done.push(paint(ahead[0], color)));
                    assert(colored(ahead, color) =~= seq![paint(ahead[0], color)] + colored(
                        ahead.drop_first(),
                        color,
                    ));
                    assert(out@ + colored(rest.remaining(), color) =~= done + colored(
                        ahead,
                        color,
                    ));
                },
                None => {
                    assert(out@ =~= done + colored(ahead, color));
                    return out;
                },
            }
        }
    }
}

/// The plugin: it answers queries that are mathematical expressions.
#[derive(Debug, Clone)]
pub struct Math<Id> {
    id: Id,
}

impl<Id> Math<Id> {
    /// The token that the host gave the plugin when it made it.
    pub closed spec fn identity(&self) -> Id {
        self.id
    }

    /// The plugin under the identity `id`.
    pub fn new(id: Id) -> (plugin: Self)
        ensures
            plugin.identity() == id,
    {
        Math { id }
    }

    /// The plugin's name.
    pub fn name(&self) -> (name: &'static str)
        ensures
            name@ == name_text(),
    {
        proof {
            reveal_strlit("Math");
            assert("Math"@ =~= name_text());
        }
        NAME
    }

    /// The plugin's name, every character in the plugin's colour.
    pub fn colored_name(&self) -> (name: Vec<ColoredChar>)
        ensures
            name@ == colored(name_text(), NAME_COLOR),
    {
        let name = self.name();
        ColoredChar::from_string(name, NAME_COLOR)
    }

    /// The token that the host gave the plugin when it made it, unchanged.
    pub fn plugin_id(&self) -> (id: &Id)
        ensures
            *id == self.identity(),
    {
        &self.id
    }

    /// The results for a query, from what the evaluator made of it: one
    /// result for each number of the answer, by ascending title and without
    /// a title twice; none where the query was no expression or had no value.
    pub fn search(&self, evaluation: &Evaluation) -> (results: Vec<SearchResult>)
        ensures
            is_listing_of(results@, evaluation.candidates()),
            evaluation is ParseFailure || evaluation is EvaluationFailure ==> results@.len() == 0,
            evaluation matches Evaluation::Success { term, answer: Answer::Single(number) }
                ==> results@.len() == 1 && results@[0]@ == answer_view(term@, number@),
    {
        let mut res: Vec<SearchResult> = Vec::new();
        match evaluation {
            Evaluation::Success { term, answer } => {
                match answer {
                    Answer::Multiple(numbers) => {
                        let mut i: usize = 0;
                        while i < numbers.len()
                            invariant
                                i <= numbers@.len(),
                                evaluation == (Evaluation::Success { term: *term, answer: *answer }),
                                answer == Answer::Multiple(*numbers),
                                views(res@) == evaluation.candidates().take(i as int),
                            decreases numbers@.len() - i,
                        {
                            let ghost before = res@;
                            res.push(result(term.as_str(), numbers[i].as_str()));
                            proof {
                                assert(answer.numbers()[i as int] == numbers@[i as int]@);
                                assert(evaluation.candidates()[i as int] == answer_view(
                                    term@,
                                    numbers@[i as int]@,
                                ));
                                assert(views(res@) =~= views(before).push(res@[i as int]@));
                                assert(views(res@) =~= evaluation.candidates().take(i + 1));
                            }
                            i += 1;
                        }
                        proof {
                            assert(evaluation.candidates().take(i as int) =~= evaluation.candidates());
                        }
                    },
                    Answer::Single(number) => {
                        res.push(result(term.as_str(), number.as_str()));
                        proof {
                            assert(views(res@) =~= evaluation.candidates());
                        }
                    },
                }
            },
            _ => {
                proof {
                    assert(views(res@) =~= evaluation.candidates());
                }
            },
        }
        let ghost collected = res@;
        sort_by_title(&mut res);
        let ghost sorted = res@;
        dedup_by_title(&mut res);
        proof {
            lemma_listing(evaluation, collected, sorted);
        }
        res
    }
}

/// Searching is a function of the evaluation: whatever two searches return
/// for the same evaluation shows the same results in the same order.
pub proof fn lemma_search_deterministic(
    evaluation: Evaluation,
    first: Seq<SearchResult>,
    second: Seq<SearchResult>,
)
    requires
        is_listing_of(first, evaluation.candidates()),
        is_listing_of(second, evaluation.candidates()),
    ensures
        views(first) == views(second),
{
    lemma_listing_unique(first, second, evaluation.candidates());
}

/// Two results for the same expression that show the same title are for the
/// same number.
proof fn lemma_title_tells_number(term: Seq<char>, a: Seq<char>, b: Seq<char>)
    requires
        answer_view(term, a).title == answer_view(term, b).title,
    ensures
        a == b,
{
    (term + separator()).lemma_concat_injective(a, b);
}

/// Sorting the collected results and taking out the repeats gives the listing
/// of the evaluation's candidates.
proof fn lemma_listing(
    evaluation: &Evaluation,
    collected: Seq<SearchResult>,
    sorted: Seq<SearchResult>,
)
    requires
        views(collected) == evaluation.candidates(),
        crate::listing::ascending(sorted),
        sorted.to_multiset() == collected.to_multiset(),
    ensures
        is_listing_of(without_repeats(sorted), evaluation.candidates()),
        collected.len() == 0 ==> without_repeats(sorted).len() == 0,
        collected.len() == 1 ==> without_repeats(sorted) == collected,
{
    let candidates = evaluation.candidates();
    let listing = without_repeats(sorted);
    lemma_without_repeats(sorted);
    sorted.to_multiset_ensures();
    collected.to_multiset_ensures();
    assert forall|i: int| 0 <= i < listing.len() implies candidates.contains(
        #[trigger] listing[i]@,
    ) by {
        assert(sorted.contains(listing[i]));
        assert(sorted.to_multiset().count(listing[i]) > 0);
        assert(collected.contains(listing[i]));
        let k = choose|k: int| 0 <= k < collected.len() && collected[k] == listing[i];
        assert(candidates[k] == listing[i]@);
    }
    assert forall|k: int| 0 <= k < candidates.len() implies views(listing).contains(
        #[trigger] candidates[k],
    ) by {
        assert(collected.contains(collected[k]));
        assert(collected.to_multiset().count(collected[k]) > 0);
        assert(sorted.contains(collected[k]));
        let j = choose|j: int| 0 <= j < sorted.len() && sorted[j] == collected[k];
        assert(shows_title(listing, sorted[j]@.title));
        let m = choose|m: int| 0 <= m < listing.len() && #[trigger] listing[m]@.title == sorted[j]@.title;
        assert(candidates.contains(listing[m]@));
        let k2 = choose|k2: int| 0 <= k2 < candidates.len() && candidates[k2] == listing[m]@;
        assert(candidates[k] == collected[k]@);
        match evaluation {
            Evaluation::Success { term, answer } => {
                assert(candidates[k] == answer_view(term@, answer.numbers()[k]));
                assert(candidates[k2] == answer_view(term@, answer.numbers()[k2]));
                lemma_title_tells_number(term@, answer.numbers()[k], answer.numbers()[k2]);
            },
            _ => {},
        }
        assert(views(listing)[m] == candidates[k]);
    }
    if collected.len() == 1 {
        assert(sorted.len() == 1);
        assert(sorted.contains(sorted[0]));
        assert(sorted.to_multiset().count(sorted[0]) > 0);
        assert(collected.contains(sorted[0]));
        assert(sorted =~= collected);
    }
}

} // verus!
