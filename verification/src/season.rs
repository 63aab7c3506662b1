//! Discovery of the season index pages: the schedule root page
//! names each season as `Sezon <year>` and links its page.

use vstd::prelude::*;

verus! {

use crate::extract::base_site;
use crate::num::{digit_run, digits_val, is_digit, parse_u32_range, scan_digits};
use crate::text::{chars_vec, occurs_at, range_eq_lit, string_from_chars};

/// One season: its year and the address of its schedule page.
#[derive(Debug, Clone, PartialEq, Eq)]
pub struct Season {
    pub year: u32,
    pub site: String,
}

/// `Sezon ` followed by a digit stands at position `i`.
pub open spec fn season_match_at(s: Seq<char>, i: int) -> bool {
    occurs_at(s, "Sezon "@, i) && i + 6 < s.len() && is_digit(s[i + 6])
}

/// First position of a season label in the text.
pub open spec fn season_idx_from(s: Seq<char>, i: int) -> Option<int>
    decreases s.len() - i,
{
    if !(0 <= i && i + 7 <= s.len()) {
        Option::None
    } else if season_match_at(s, i) {
        Option::Some(i)
    } else {
        season_idx_from(s, i + 1)
    }
}

/// The year of the first season label in the text: the digit run
/// after the first `Sezon `, if it fits a `u32`.
pub open spec fn season_year_value(s: Seq<char>) -> Option<u32> {
    match season_idx_from(s, 0) {
        Option::None => Option::None,
        Option::Some(i) => {
            let j = i + 6 + digit_run(s.skip(i + 6)) as int;
            if digits_val(s.subrange(i + 6, j)) <= u32::MAX {
                Option::Some(digits_val(s.subrange(i + 6, j)) as u32)
            } else {
                Option::None
            }
        },
    }
}

proof fn lemma_lit_occurs(s: Seq<char>, t: Seq<char>, i: int)
    requires
        0 <= i,
        i + t.len() <= s.len(),
        s.subrange(i, i + t.len()) == t,
    ensures
        occurs_at(s, t, i),
{
    assert forall|k: int| 0 <= k < t.len() implies s[i + k] == t[k] by {
        assert(s.subrange(i, i + t.len())[k] == s[i + k]);
    }
}

impl Season {
    pub fn site(&self) -> (r: &str)
        ensures
            r@ == self.site@,
    {
        self.site.as_str()
    }

    /// Reads a season out of its label text and its page's relative
    /// path: the year is the digit run after the first `Sezon `.
    pub fn new(year_str: &str, relative_path: &str) -> (r: Option<Season>)
        ensures
            match r {
                Option::Some(se) => season_year_value(year_str@) == Option::Some(se.year)
                    && se.site@ == base_site() + relative_path@,
                Option::None => season_year_value(year_str@) is None,
            },
    {
        let v = chars_vec(year_str);
        let n = v.len();
        let mut i: usize = 0;
        loop
            invariant
                i <= n == v@.len(),
                v@ == year_str@,
                season_idx_from(v@, 0) == season_idx_from(v@, i as int),
            decreases n - i,
        {
            proof {
                reveal_strlit("Sezon ");
            }
            if n - i < 7 {
                return None;
            }
            let lit_here = range_eq_lit(&v, i, i + 6, "Sezon ");
            let digit_here = if lit_here {
                crate::num::digit(v[i + 6])
            } else {
                false
            };
            if lit_here && digit_here {
                proof {
                    lemma_lit_occurs(v@, "Sezon "@, i as int);
                    assert(season_match_at(v@, i as int));
                }
                let j = scan_digits(&v, i + 6);
                proof {
                    assert(j > i + 6) by {
                        if j == i + 6 {
                            assert(digit_run(v@.skip((i + 6) as int)) == 0);
                        }
                    }
                }
                let year = match parse_u32_range(&v, i + 6, j) {
                    Some(y) => y,
                    None => {
                        return None;
                    },
                };
                let mut sv: Vec<char> = Vec::new();
                crate::json::push_lit(&mut sv, "https://sportowefakty.wp.pl");
                crate::json::push_lit(&mut sv, relative_path);
                proof {
                    assert(Seq::<char>::empty() + base_site() + relative_path@ =~= base_site()
                        + relative_path@);
                }
                return Some(Season { year, site: string_from_chars(&sv) });
            }
            proof {
                if season_match_at(v@, i as int) {
                    assert(v@.subrange(i as int, i + 6) =~= "Sezon "@);
                    assert(crate::num::is_digit(v@[i + 6]));
                    assert(false);
                }
            }
            i = i + 1;
        }
    }
}

/// Decoding of one dropdown entry: the year off the link text, the
/// page off the link address.
pub open spec fn season_entry_value(inner: Seq<char>, href: Option<Seq<char>>) -> Option<
    (u32, Seq<char>),
> {
    match (season_year_value(inner), href) {
        (Option::Some(y), Option::Some(h)) => Option::Some((y, base_site() + h)),
        _ => Option::None,
    }
}

/// Decoding of the season dropdown: each entry's first link, all or
/// nothing.
pub open spec fn seasons_from(
    inners: Seq<Seq<Seq<char>>>,
    hrefs: Seq<Seq<Option<Seq<char>>>>,
) -> Option<Seq<(u32, Seq<char>)>>
    decreases inners.len(),
{
    if inners.len() != hrefs.len() {
        Option::None
    } else if inners.len() == 0 {
        Option::Some(Seq::empty())
    } else if inners[0].len() < 1 || hrefs[0].len() < 1 {
        Option::None
    } else {
        match season_entry_value(inners[0][0], hrefs[0][0]) {
            Option::None => Option::None,
            Option::Some(e) => match seasons_from(inners.drop_first(), hrefs.drop_first()) {
                Option::None => Option::None,
                Option::Some(rest) => Option::Some(seq![e] + rest),
            },
        }
    }
}

/// Decoding of the schedule root page: the current season first,
/// then every season of the dropdown, which must be present.
pub open spec fn seasons_value(body: Seq<char>) -> Option<Seq<(u32, Seq<char>)>> {
    let cur = crate::html::selected_inner(
        body,
        "li.filtersitem:nth-child(1) > div:nth-child(1)"@,
    );
    let menu = crate::html::selected_inner(
        body,
        "li.filtersitem:nth-child(1) > div:nth-child(2) > ul:nth-child(2)"@,
    );
    if cur.len() < 1 || menu.len() < 1 {
        Option::None
    } else {
        match season_year_value(cur[0]) {
            Option::None => Option::None,
            Option::Some(y) => {
                let inners = crate::html::selected_within_inner(
                    body,
                    "li.filtersitem:nth-child(1) > div:nth-child(2) > ul:nth-child(2) li"@,
                    "a"@,
                );
                let hrefs = crate::html::selected_within_attr(
                    body,
                    "li.filtersitem:nth-child(1) > div:nth-child(2) > ul:nth-child(2) li"@,
                    "a"@,
                    "href"@,
                );
                match seasons_from(inners, hrefs) {
                    Option::None => Option::None,
                    Option::Some(rest) => Option::Some(
                        seq![(y, base_site() + "/zuzel/pge-ekstraliga/terminarz"@)] + rest,
                    ),
                }
            },
        }
    }
}

impl Season {
    /// Reads the season list off the schedule root page.
    pub fn parse_site(body: &str) -> (r: Option<Vec<Season>>)
        ensures
            match r {
                Option::Some(v) => seasons_value(body@) == Option::Some(
                    v@.map_values(|se: Season| (se.year, se.site@)),
                ),
                Option::None => seasons_value(body@) is None,
            },
    {
        let cur = crate::html::select_inner(body, "li.filtersitem:nth-child(1) > div:nth-child(1)");
        let menu = crate::html::select_inner(
            body,
            "li.filtersitem:nth-child(1) > div:nth-child(2) > ul:nth-child(2)",
        );
        if cur.len() < 1 || menu.len() < 1 {
            return None;
        }
        proof {
            assert(cur.deep_view()[0] =~= cur@[0]@);
        }
        let first = match Season::new(cur[0].as_str(), "/zuzel/pge-ekstraliga/terminarz") {
            Some(se) => se,
            None => {
                return None;
            },
        };
        let inners = crate::html::select_within_inner(
            body,
            "li.filtersitem:nth-child(1) > div:nth-child(2) > ul:nth-child(2) li",
            "a",
        );
        let hrefs = crate::html::select_within_attr(
            body,
            "li.filtersitem:nth-child(1) > div:nth-child(2) > ul:nth-child(2) li",
            "a",
            "href",
        );
        let ghost iv = inners.deep_view();
        let ghost hv = hrefs.deep_view();
        let n = inners.len();
        if hrefs.len() != n {
            return None;
        }
        let mut acc: Vec<Season> = Vec::new();
        acc.push(first);
        let ghost first_entry = (first.year, first.site@);
        let mut i: usize = 0;
        proof {
            assert(iv.skip(0) =~= iv);
            assert(hv.skip(0) =~= hv);
            assert(acc@.map_values(|se: Season| (se.year, se.site@)) =~= seq![first_entry]);
        }
        while i < n
            invariant
                i <= n == inners@.len(),
                hrefs@.len() == n,
                iv == inners.deep_view(),
                hv == hrefs.deep_view(),
                iv.len() == n && hv.len() == n,
                season_year_value(cur.deep_view()[0]) == Option::Some(first_entry.0),
                first_entry.1 == base_site() + "/zuzel/pge-ekstraliga/terminarz"@,
                cur.deep_view() == crate::html::selected_inner(
                    body@,
                    "li.filtersitem:nth-child(1) > div:nth-child(1)"@,
                ),
                cur.deep_view().len() >= 1,
                crate::html::selected_inner(
                    body@,
                    "li.filtersitem:nth-child(1) > div:nth-child(2) > ul:nth-child(2)"@,
                ).len() >= 1,
                iv == crate::html::selected_within_inner(
                    body@,
                    "li.filtersitem:nth-child(1) > div:nth-child(2) > ul:nth-child(2) li"@,
                    "a"@,
                ),
                hv == crate::html::selected_within_attr(
                    body@,
                    "li.filtersitem:nth-child(1) > div:nth-child(2) > ul:nth-child(2) li"@,
                    "a"@,
                    "href"@,
                ),
                acc@.len() >= 1,
                (match seasons_from(iv.skip(i as int), hv.skip(i as int)) {
                    Option::Some(rest) => seasons_value(body@) == Option::Some(
                        acc@.map_values(|se: Season| (se.year, se.site@)) + rest,
                    ),
                    Option::None => seasons_value(body@) is None,
                }),
            decreases n - i,
        {
            proof {
                assert(iv.skip(i as int)[0] == iv[i as int]);
                assert(hv.skip(i as int)[0] == hv[i as int]);
                assert(iv[i as int] =~~= inners@[i as int].deep_view());
                assert(hv[i as int] =~~= hrefs@[i as int].deep_view());
            }
            let igroup = &inners[i];
            let hgroup = &hrefs[i];
            if igroup.len() < 1 || hgroup.len() < 1 {
                return None;
            }
            proof {
                assert(igroup.deep_view()[0] =~= igroup@[0]@);
            }
            let h = match &hgroup[0] {
                Some(h) => h,
                None => {
                    proof {
                        assert(hgroup.deep_view()[0] is None);
                    }
                    return None;
                },
            };
            proof {
                assert(hgroup.deep_view()[0] == Option::Some(h@));
            }
            let se = match Season::new(igroup[0].as_str(), h.as_str()) {
                Some(se) => se,
                None => {
                    return None;
                },
            };
            proof {
                assert(iv.skip(i as int).drop_first() =~= iv.skip(i + 1));
                assert(hv.skip(i as int).drop_first() =~= hv.skip(i + 1));
                let av = acc@.map_values(|x: Season| (x.year, x.site@));
                let av2 = acc@.push(se).map_values(|x: Season| (x.year, x.site@));
                assert(av2 =~= av.push((se.year, se.site@)));
                if let Option::Some(rest) = seasons_from(iv.skip(i + 1), hv.skip(i + 1)) {
                    assert(av + (seq![(se.year, se.site@)] + rest) =~= av2 + rest);
                }
            }
            acc.push(se);
            i = i + 1;
        }
        proof {
            assert(iv.skip(n as int) =~= Seq::<Seq<Seq<char>>>::empty());
            assert(hv.skip(n as int) =~= Seq::<Seq<Option<Seq<char>>>>::empty());
            let av = acc@.map_values(|se: Season| (se.year, se.site@));
            assert(av + Seq::<(u32, Seq<char>)>::empty() =~= av);
        }
        Some(acc)
    }
}

} // verus!
