//! Package search over a remote catalog: query keys, field normalisation,
//! ranking by popularity, a time-to-live cache of answers and pagination of
//! result sets.

mod answer;
mod cache;
mod markup;
mod package;
mod pager;
mod query;
mod ranking;
mod response;
mod search;

pub use answer::{
    answers, article_of, inline_answer, is_empty_notice, is_error_notice, Article, InlineAnswer,
};
pub use cache::{
    holds_key, is_live, keys_distinct, lemma_lookup_after_store, lemma_stored_distinct,
    lemma_sweep_unseen, lemma_swept_slots, live_at, live_value, slot_of, stored, sweep_again,
    swept, window_end, window_start, Slot, TtlCache,
};
pub use markup::{escape_char, escape_html, escaped, field_text, none_text, null_to_none};
pub use package::{
    decimal, digit_char, git_url, minute_stamp_of, normalized, opt_view, pretty_text,
    raw_dates_valid, stamp_text, write_decimal, Packages, RawPackage, LAST_SECOND_OF_9999,
};
pub use pager::{
    all_digits, digits_value, is_digit, lemma_page_ends, offset_value, page, page_of,
    parse_offset, unsigned_part, PageWindow, PAGE_SIZE,
};
pub use query::{
    has_maintainer_marker, lemma_search_key, maintainer_marker, search_of, Search, SearchView,
};
pub use ranking::{
    all_above, all_at_least, ranked, sort_by_popularity, stably_ranked, with_rank,
};
pub use response::{
    all_dates_valid, all_normalized, bad_record_message, ranked_response, AurResponse,
    RawResponse,
};
pub use search::{
    cached_search, is_blank_query, is_param, lemma_answer_lifetime, lemma_repeat_lookup, query_key, search_field,
    search_params, store_search, CACHE_TTL_MS,
};
