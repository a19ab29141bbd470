//! Decision logic of the history popup: search filtering, keyboard
//! navigation and row labelling.  The widget shell only renders what these
//! functions return.

use vstd::math::min;
use vstd::prelude::*;
use vstd::string::StrSliceExecFns;
use vstd::string::StringExecFns;

use crate::store::AbsEntry;
use crate::store::ClipboardEntry;
use crate::text::has_substring;
use crate::text::str_contains;

verus! {

/// The popup shows at most this many search matches.
pub const MAX_SEARCH_RESULTS: usize = 15;

/// Row contents longer than this many characters are truncated with an
/// ellipsis.
pub const ROW_LABEL_CHARS: usize = 80;

/// The case-folded image of a text, as `str::to_lowercase` computes it.
pub uninterp spec fn lower_of(s: Seq<char>) -> Seq<char>;

/// Relies on `str::to_lowercase`: the result is a function of the
/// characters alone, and the empty string stays empty.
#[verifier::external_body]
fn lowercase(s: &str) -> (r: String)
    ensures
        r@ == lower_of(s@),
        s@.len() == 0 ==> r@.len() == 0,
{
    s.to_lowercase()
}

/// An entry matches a (case-folded) query when its case-folded content
/// contains it.
pub open spec fn query_matches(e: AbsEntry, q: Seq<char>) -> bool {
    has_substring(lower_of(e.content), q)
}

/// The search predicate for a fixed case-folded query.
pub open spec fn match_pred(q: Seq<char>) -> spec_fn(AbsEntry) -> bool {
    |e: AbsEntry| query_matches(e, q)
}

/// What the popup lists for a search query: every entry for an empty
/// query; otherwise the first `MAX_SEARCH_RESULTS` matching entries, in
/// store order.
pub open spec fn search_results(s: Seq<AbsEntry>, q: Seq<char>) -> Seq<AbsEntry> {
    if q.len() == 0 {
        s
    } else {
        let f = s.filter(match_pred(lower_of(q)));
        f.take(min(MAX_SEARCH_RESULTS as int, f.len() as int))
    }
}

/// Filter the listed entries by a search query, case-insensitively,
/// keeping store order and at most `MAX_SEARCH_RESULTS` matches; an empty
/// query keeps everything.
pub fn filter_entries(entries: &Vec<ClipboardEntry>, query: &str) -> (r: Vec<ClipboardEntry>)
    ensures
        r@.map_values(|e: ClipboardEntry| e@) == search_results(
            entries@.map_values(|e: ClipboardEntry| e@),
            query@,
        ),
{
    let ghost sv = entries@.map_values(|e: ClipboardEntry| e@);
    if query.is_empty() {
        let mut all: Vec<ClipboardEntry> = Vec::new();
        let mut i: usize = 0;
        while i < entries.len()
            invariant
                i <= entries@.len(),
                sv == entries@.map_values(|e: ClipboardEntry| e@),
                all@.map_values(|e: ClipboardEntry| e@) == sv.take(i as int),
            decreases entries@.len() - i,
        {
            let ghost allold = all@;
            let e = entries[i].clone();
            proof {
                assert(e@ == sv[i as int]);
            }
            all.push(e);
            proof {
                assert(all@.map_values(|x: ClipboardEntry| x@) =~= allold.map_values(
                    |x: ClipboardEntry| x@,
                ).push(e@));
                assert(sv.take(i + 1) =~= sv.take(i as int).push(sv[i as int]));
            }
            i += 1;
        }
        proof {
            assert(sv.take(sv.len() as int) =~= sv);
        }
        all
    } else {
        let q = lowercase(query);
        let ghost lq = lower_of(query@);
        let ghost pred = match_pred(lq);
        let mut r: Vec<ClipboardEntry> = Vec::new();
        let mut i: usize = 0;
        while i < entries.len()
            invariant
                i <= entries@.len(),
                sv == entries@.map_values(|e: ClipboardEntry| e@),
                q@ == lq,
                pred == match_pred(lq),
                r@.len() <= MAX_SEARCH_RESULTS,
                ({
                    let f = sv.take(i as int).filter(pred);
                    r@.map_values(|e: ClipboardEntry| e@) == f.take(
                        min(MAX_SEARCH_RESULTS as int, f.len() as int),
                    )
                }),
            decreases entries@.len() - i,
        {
            let ghost f0 = sv.take(i as int).filter(pred);
            proof {
                reveal(Seq::filter);
                assert(sv.take(i + 1).drop_last() =~= sv.take(i as int));
                assert(sv.take(i + 1).last() == sv[i as int]);
                assert(sv.take(i + 1).filter(pred) == if pred(sv[i as int]) {
                    f0.push(sv[i as int])
                } else {
                    f0
                });
                broadcast use vstd::seq_lib::group_filter_ensures;

                assert(f0.len() <= sv.take(i as int).len());
            }
            let lowered = lowercase(entries[i].content.as_str());
            if str_contains(lowered.as_str(), q.as_str()) && r.len() < MAX_SEARCH_RESULTS {
                let ghost rold = r@;
                let e = entries[i].clone();
                proof {
                    assert(e@ == sv[i as int]);
                }
                r.push(e);
                proof {
                    let f1 = f0.push(sv[i as int]);
                    assert(r@.map_values(|x: ClipboardEntry| x@) =~= rold.map_values(
                        |x: ClipboardEntry| x@,
                    ).push(e@));
                    assert(f1.take(min(MAX_SEARCH_RESULTS as int, f1.len() as int)) =~= f0.take(
                        min(MAX_SEARCH_RESULTS as int, f0.len() as int),
                    ).push(sv[i as int]));
                }
            } else {
                proof {
                    if pred(sv[i as int]) {
                        let f1 = f0.push(sv[i as int]);
                        assert(r@.len() == MAX_SEARCH_RESULTS);
                        assert(f1.take(min(MAX_SEARCH_RESULTS as int, f1.len() as int)) =~= f0.take(
                            min(MAX_SEARCH_RESULTS as int, f0.len() as int),
                        ));
                    }
                }
            }
            i += 1;
        }
        proof {
            assert(sv.take(sv.len() as int) =~= sv);
        }
        r
    }
}

/// The row selected after one keyboard navigation step: one below (or
/// above) the current selection, starting from the top when nothing is
/// selected, and unchanged selection is reported as nothing when the step
/// leaves the list.
pub fn navigation_target(len: usize, current: Option<usize>, down: bool) -> (r: Option<usize>)
    ensures
        ({
            let cur: int = match current {
                Some(c) => c as int,
                None => -1,
            };
            let next = if down {
                cur + 1
            } else {
                cur - 1
            };
            r == (if 0 <= next < len {
                Some(next as usize)
            } else {
                None::<usize>
            })
        }),
{
    match current {
        Some(c) => {
            if down {
                if c < usize::MAX && c + 1 < len {
                    Some(c + 1)
                } else {
                    None
                }
            } else {
                if c > 0 && c - 1 < len {
                    Some(c - 1)
                } else {
                    None
                }
            }
        },
        None => {
            if down && len > 0 {
                Some(0)
            } else {
                None
            }
        },
    }
}

/// The row a digit key selects for quick selection: keys 1 through 9 pick
/// rows 0 through 8; other digits select nothing.
pub fn quick_select_index(digit: u32) -> (r: Option<usize>)
    ensures
        r == (if 1 <= digit <= 9 {
            Some((digit - 1) as usize)
        } else {
            None::<usize>
        }),
{
    if 1 <= digit && digit <= 9 {
        Some((digit - 1) as usize)
    } else {
        None
    }
}

/// The label text for one popup row: contents longer than
/// `ROW_LABEL_CHARS` characters are truncated with a trailing ellipsis.
pub fn row_label(content: &str) -> (r: String)
    ensures
        content@.len() <= ROW_LABEL_CHARS ==> r@ == content@,
        content@.len() > ROW_LABEL_CHARS ==> r@ == content@.take(ROW_LABEL_CHARS as int) + "..."@,
{
    let n = content.unicode_len();
    if n <= ROW_LABEL_CHARS {
        String::from_str(content)
    } else {
        let mut out = String::from_str(content.substring_char(0, ROW_LABEL_CHARS));
        out.append("...");
        out
    }
}

} // verus!
