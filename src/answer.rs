use vstd::prelude::*;

use crate::package::{decimal, pretty_text, write_decimal, Packages};
use crate::pager::{page, page_of};
use crate::response::AurResponse;

verus! {

/// One item of an answer to an inline query.
pub struct Article {
    pub id: String,
    pub title: String,
    pub description: Option<String>,
    pub body: String,
    /// Whether `body` is HTML.
    pub html: bool,
}

/// The items of an answer to an inline query, and the offset of the next
/// page where there is one.
pub struct InlineAnswer {
    pub articles: Vec<Article>,
    pub next_offset: Option<usize>,
}

pub open spec fn article_of(p: Packages, a: Article) -> bool {
    &&& a.id@ == decimal(p.id as nat)
    &&& a.title@ == p.name@
    &&& a.description matches Some(d) && d@ == p.description@
    &&& a.body@ == pretty_text(p)
    &&& a.html
}

/// The item that says that a search found nothing.
pub open spec fn is_empty_notice(a: Article) -> bool {
    &&& a.id@ == "1"@
    &&& a.title@ == "No result found"@
    &&& a.description is None
    &&& a.body@ == "No package has been found"@
    &&& !a.html
}

/// The item that carries the catalog's error message.
pub open spec fn is_error_notice(a: Article, error: Seq<char>) -> bool {
    &&& a.id@ == "1"@
    &&& a.title@ == error
    &&& a.description is None
    &&& a.body@ == "Error occurred while searching AUR"@
    &&& !a.html
}

/// `r` answers an inline query at `offset` with `response`: an error gives
/// one item with its message; a result gives the items of the page at
/// `offset`, or one item that says nothing was found where that page is
/// empty, and the offset of the next page where it is not `0`.
pub open spec fn answers(response: AurResponse, offset: int, r: InlineAnswer) -> bool {
    match response {
        AurResponse::Error { error } => {
            &&& r.articles@.len() == 1
            &&& is_error_notice(r.articles@[0], error@)
            &&& r.next_offset is None
        },
        AurResponse::Result { total: _, results } => {
            let (start, end, next) = page_of(results@.len() as int, offset);
            &&& start == end ==> r.articles@.len() == 1 && is_empty_notice(r.articles@[0])
            &&& start < end ==> r.articles@.len() == end - start && forall|i: int|
                0 <= i < end - start ==> article_of(results@[start + i], #[trigger] r.articles@[i])
            &&& r.next_offset == (if next == 0 {
                None::<usize>
            } else {
                Some(next as usize)
            })
        },
    }
}

fn article(p: &Packages) -> (a: Article)
    ensures
        article_of(*p, a),
{
    let mut id = String::new();
    write_decimal(&mut id, p.id);
    Article {
        id,
        title: p.name.clone(),
        description: Some(p.description.clone()),
        body: p.pretty(),
        html: true,
    }
}

/// Answers an inline query at `offset` from the catalog's answer.
pub fn inline_answer(response: &AurResponse, offset: usize) -> (r: InlineAnswer)
    ensures
        answers(*response, offset as int, r),
{
    match response {
        AurResponse::Error { error } => {
            let a = Article {
                id: String::from_str("1"),
                title: error.clone(),
                description: None,
                body: String::from_str("Error occurred while searching AUR"),
                html: false,
            };
            let mut articles: Vec<Article> = Vec::new();
            articles.push(a);
            InlineAnswer { articles, next_offset: None }
        },
        AurResponse::Result { total: _, results } => {
            let w = page(results.len(), offset);
            let mut articles: Vec<Article> = Vec::new();
            let mut i: usize = w.start;
            while i < w.end
                invariant
                    w.start <= i <= w.end <= results@.len(),
                    articles@.len() == i - w.start,
                    forall|j: int|
                        0 <= j < i - w.start ==> article_of(
                            results@[w.start + j],
                            #[trigger] articles@[j],
                        ),
                decreases w.end - i,
            {
                articles.push(article(&results[i]));
                i = i + 1;
            }
            if articles.len() == 0 {
                articles.push(
                    Article {
                        id: String::from_str("1"),
                        title: String::from_str("No result found"),
                        description: None,
                        body: String::from_str("No package has been found"),
                        html: false,
                    },
                );
            }
            let next_offset = if w.next_offset == 0 {
                None
            } else {
                Some(w.next_offset)
            };
            InlineAnswer { articles, next_offset }
        },
    }
}

} // verus!
