//! Deterministic query URLs for the map service: the search URL with its
//! fixed parameter order, and the browse and detail URLs. Equal inputs give
//! byte-identical URLs, which keeps requests reproducible and cacheable.

use crate::numbers::{bool_to_text, i64_to_dec, spec_bool_text, spec_dec_int};
use crate::text::{spec_url_encoded, trim_of, trim_text, url_encode};
use crate::wire::{opt_text, pairs_view, strs_view};
use vstd::prelude::*;
use vstd::string::{StrSliceExecFns, StringExecFns};

verus! {

/// The default page size; a request carries the parameter only when its
/// page size differs.
pub fn default_page_size() -> (r: i64)
    ensures
        r == 20,
{
    20
}

/// The ghost shape of the search filters.
pub ghost struct FiltersView {
    pub sort_order: Seq<char>,
    pub tags: Seq<Seq<char>>,
    pub exclude_tags: Seq<Seq<char>>,
    pub min_bpm: Option<Seq<char>>,
    pub max_bpm: Option<Seq<char>>,
    pub min_nps: Option<Seq<char>>,
    pub max_nps: Option<Seq<char>>,
    pub min_duration: Option<Seq<char>>,
    pub max_duration: Option<Seq<char>>,
    pub min_rating: Option<Seq<char>>,
    pub max_rating: Option<Seq<char>>,
    pub curated: Option<bool>,
    pub verified: Option<bool>,
    pub automapper: Option<bool>,
    pub from: Option<Seq<char>>,
    pub to: Option<Seq<char>>,
    pub leaderboard: Option<Seq<char>>,
    pub page_size: int,
}

/// The search filters; numeric bounds are carried as decimal text, as the
/// query string sends them.
#[derive(Debug, Clone)]
pub struct BeatSaverSearchFilters {
    pub sort_order: String,
    pub tags: Vec<String>,
    pub exclude_tags: Vec<String>,
    pub min_bpm: Option<String>,
    pub max_bpm: Option<String>,
    pub min_nps: Option<String>,
    pub max_nps: Option<String>,
    pub min_duration: Option<String>,
    pub max_duration: Option<String>,
    pub min_rating: Option<String>,
    pub max_rating: Option<String>,
    pub curated: Option<bool>,
    pub verified: Option<bool>,
    pub automapper: Option<bool>,
    pub from: Option<String>,
    pub to: Option<String>,
    pub leaderboard: Option<String>,
    pub page_size: i64,
}

impl View for BeatSaverSearchFilters {
    type V = FiltersView;

    open spec fn view(&self) -> FiltersView {
        FiltersView {
            sort_order: self.sort_order@,
            tags: strs_view(self.tags@),
            exclude_tags: strs_view(self.exclude_tags@),
            min_bpm: opt_text(self.min_bpm),
            max_bpm: opt_text(self.max_bpm),
            min_nps: opt_text(self.min_nps),
            max_nps: opt_text(self.max_nps),
            min_duration: opt_text(self.min_duration),
            max_duration: opt_text(self.max_duration),
            min_rating: opt_text(self.min_rating),
            max_rating: opt_text(self.max_rating),
            curated: self.curated,
            verified: self.verified,
            automapper: self.automapper,
            from: opt_text(self.from),
            to: opt_text(self.to),
            leaderboard: opt_text(self.leaderboard),
            page_size: self.page_size as int,
        }
    }
}

// ---------------------------------------------------------------------------
// The parameter list
// ---------------------------------------------------------------------------
/// The free-text parameter: present when the trimmed term is not empty.
pub open spec fn spec_q_param(query: Seq<char>) -> Seq<(Seq<char>, Seq<char>)> {
    if trim_of(query).len() > 0 {
        seq![("q"@, trim_of(query))]
    } else {
        seq![]
    }
}

/// An optional parameter: present exactly when a value is given.
pub open spec fn spec_opt_param(key: Seq<char>, v: Option<Seq<char>>) -> Seq<
    (Seq<char>, Seq<char>),
> {
    if v is Some {
        seq![(key, v->Some_0)]
    } else {
        seq![]
    }
}

/// An optional parameter: present exactly when a value is given and not
/// empty.
pub open spec fn spec_opt_nonempty_param(key: Seq<char>, v: Option<Seq<char>>) -> Seq<
    (Seq<char>, Seq<char>),
> {
    if v is Some && v->Some_0.len() > 0 {
        seq![(key, v->Some_0)]
    } else {
        seq![]
    }
}

/// An optional boolean parameter.
pub open spec fn spec_flag_param(key: Seq<char>, v: Option<bool>) -> Seq<(Seq<char>, Seq<char>)> {
    if v is Some {
        seq![(key, spec_bool_text(v->Some_0))]
    } else {
        seq![]
    }
}

/// Texts joined with a separator between neighbours.
pub open spec fn join_sep(parts: Seq<Seq<char>>, sep: Seq<char>) -> Seq<char>
    decreases parts.len(),
{
    if parts.len() == 0 {
        seq![]
    } else if parts.len() == 1 {
        parts[0]
    } else {
        parts[0] + sep + join_sep(parts.drop_first(), sep)
    }
}

/// The merged tag parameter: included tags, then excluded tags prefixed
/// with an exclamation mark, all joined with commas; present when any tag
/// is given.
pub open spec fn spec_tags_param(tags: Seq<Seq<char>>, exclude: Seq<Seq<char>>) -> Seq<
    (Seq<char>, Seq<char>),
> {
    let parts = tags + exclude.map_values(|t: Seq<char>| "!"@ + t);
    if parts.len() > 0 {
        seq![("tags"@, join_sep(parts, ","@))]
    } else {
        seq![]
    }
}

/// The page-size parameter: present exactly when the page size differs
/// from the default of 20.
pub open spec fn spec_page_size_param(page_size: int) -> Seq<(Seq<char>, Seq<char>)> {
    if page_size != 20 {
        seq![("pageSize"@, spec_dec_int(page_size))]
    } else {
        seq![]
    }
}

/// The full parameter list of one search, in its fixed order: text, sort,
/// tags, numeric ranges, rating range, flags, date range, leaderboard, page
/// size.
pub open spec fn spec_search_params(query: Seq<char>, f: FiltersView) -> Seq<
    (Seq<char>, Seq<char>),
> {
    spec_q_param(query) + seq![("sortOrder"@, f.sort_order)] + spec_tags_param(
        f.tags,
        f.exclude_tags,
    ) + spec_opt_param("minBpm"@, f.min_bpm) + spec_opt_param("maxBpm"@, f.max_bpm)
        + spec_opt_param("minNps"@, f.min_nps) + spec_opt_param("maxNps"@, f.max_nps)
        + spec_opt_param("minDuration"@, f.min_duration) + spec_opt_param(
        "maxDuration"@,
        f.max_duration,
    ) + spec_opt_param("minRating"@, f.min_rating) + spec_opt_param("maxRating"@, f.max_rating)
        + spec_flag_param("curated"@, f.curated) + spec_flag_param("verified"@, f.verified)
        + spec_flag_param("automapper"@, f.automapper) + spec_opt_nonempty_param("from"@, f.from)
        + spec_opt_nonempty_param("to"@, f.to) + spec_opt_nonempty_param(
        "leaderboard"@,
        f.leaderboard,
    ) + spec_page_size_param(f.page_size)
}

/// The query string: each key and value percent-encoded, pairs joined with
/// ampersands.
pub open spec fn spec_query_string(params: Seq<(Seq<char>, Seq<char>)>) -> Seq<char> {
    join_sep(
        params.map_values(
            |p: (Seq<char>, Seq<char>)| spec_url_encoded(p.0) + "="@ + spec_url_encoded(p.1),
        ),
        "&"@,
    )
}

/// The search URL of one query: the base, the page in the path, and the
/// query string.
pub open spec fn spec_search_url(query: Seq<char>, page: int, f: FiltersView) -> Seq<char> {
    "https://api.beatsaver.com/search/text/"@ + spec_dec_int(page) + "?"@ + spec_query_string(
        spec_search_params(query, f),
    )
}

/// The browse URL of one category.
pub open spec fn spec_browse_url(sort: Seq<char>, page_size: int) -> Seq<char> {
    "https://api.beatsaver.com/maps/latest?sort="@ + spec_url_encoded(sort)
        + "&automapper=false&pageSize="@ + spec_dec_int(page_size)
}

/// The detail URL of one map id.
pub open spec fn spec_map_url(id: Seq<char>) -> Seq<char> {
    "https://api.beatsaver.com/maps/id/"@ + spec_url_encoded(id)
}

/// Joining one more text appends a separator and the text, except to an
/// empty list.
pub proof fn lemma_join_sep_push(parts: Seq<Seq<char>>, p: Seq<char>, sep: Seq<char>)
    ensures
        join_sep(parts.push(p), sep) == if parts.len() == 0 {
            p
        } else {
            join_sep(parts, sep) + sep + p
        },
    decreases parts.len(),
{
    let q = parts.push(p);
    if parts.len() == 0 {
        assert(q.len() == 1);
        assert(q[0] == p);
    } else if parts.len() == 1 {
        assert(q[0] == parts[0]);
        assert(q.drop_first() =~= seq![p]);
        assert(join_sep(q.drop_first(), sep) == p);
    } else {
        assert(q[0] == parts[0]);
        assert(q.drop_first() =~= parts.drop_first().push(p));
        lemma_join_sep_push(parts.drop_first(), p, sep);
        assert(parts[0] + sep + (join_sep(parts.drop_first(), sep) + sep + p) =~= (parts[0] + sep
            + join_sep(parts.drop_first(), sep)) + sep + p);
    }
}

/// Joins texts with a separator.
#[verifier::loop_isolation(false)]
pub fn join_with(parts: &Vec<String>, sep: &str) -> (r: String)
    ensures
        r@ == join_sep(strs_view(parts@), sep@),
{
    let mut acc = String::new();
    let mut i: usize = 0;
    proof {
        assert(strs_view(parts@).take(0) =~= Seq::<Seq<char>>::empty());
    }
    while i < parts.len()
        invariant
            i <= parts@.len(),
            acc@ == join_sep(strs_view(parts@).take(i as int), sep@),
        decreases parts@.len() - i,
    {
        let ghost taken = strs_view(parts@).take(i as int);
        if i > 0 {
            acc.append(sep);
        }
        acc.append(parts[i].as_str());
        proof {
            lemma_join_sep_push(taken, parts@[i as int]@, sep@);
            assert(taken.push(parts@[i as int]@) =~= strs_view(parts@).take(i as int + 1));
        }
        i = i + 1;
    }
    proof {
        assert(strs_view(parts@).take(parts@.len() as int) =~= strs_view(parts@));
    }
    acc
}

/// Appends an optional parameter.
fn push_opt(params: &mut Vec<(String, String)>, key: &'static str, v: &Option<String>)
    ensures
        pairs_view(final(params)@) == pairs_view(old(params)@) + spec_opt_param(
            key@,
            opt_text(*v),
        ),
{
    let ghost before = pairs_view(params@);
    match v {
        Some(x) => {
            params.push((String::from_str(key), x.clone()));
            proof {
                assert(pairs_view(params@) =~= before + spec_opt_param(key@, opt_text(*v)));
            }
        },
        None => {
            proof {
                assert(pairs_view(params@) =~= before + spec_opt_param(key@, opt_text(*v)));
            }
        },
    }
}

/// Appends an optional parameter, omitting an empty value.
fn push_opt_nonempty(params: &mut Vec<(String, String)>, key: &'static str, v: &Option<String>)
    ensures
        pairs_view(final(params)@) == pairs_view(old(params)@) + spec_opt_nonempty_param(
            key@,
            opt_text(*v),
        ),
{
    let ghost before = pairs_view(params@);
    match v {
        Some(x) => {
            if !x.as_str().is_empty() {
                params.push((String::from_str(key), x.clone()));
            }
            proof {
                assert(pairs_view(params@) =~= before + spec_opt_nonempty_param(
                    key@,
                    opt_text(*v),
                ));
            }
        },
        None => {
            proof {
                assert(pairs_view(params@) =~= before + spec_opt_nonempty_param(
                    key@,
                    opt_text(*v),
                ));
            }
        },
    }
}

/// Appends an optional boolean parameter.
fn push_flag(params: &mut Vec<(String, String)>, key: &'static str, v: Option<bool>)
    ensures
        pairs_view(final(params)@) == pairs_view(old(params)@) + spec_flag_param(key@, v),
{
    let ghost before = pairs_view(params@);
    match v {
        Some(x) => {
            params.push((String::from_str(key), String::from_str(bool_to_text(x))));
            proof {
                assert(pairs_view(params@) =~= before + spec_flag_param(key@, v));
            }
        },
        None => {
            proof {
                assert(pairs_view(params@) =~= before + spec_flag_param(key@, v));
            }
        },
    }
}

/// Builds the search URL; the output is a function of the inputs alone.
#[verifier::loop_isolation(false)]
#[verifier::rlimit(60)]
pub fn build_search_params(query: &str, page: i64, filters: &BeatSaverSearchFilters) -> (r: String)
    ensures
        r@ == spec_search_url(query@, page as int, filters@),
{
    let mut params: Vec<(String, String)> = Vec::new();
    let trimmed = trim_text(query);
    if !trimmed.is_empty() {
        params.push((String::from_str("q"), String::from_str(trimmed)));
    }
    let ghost p1 = spec_q_param(query@);
    proof {
        assert(pairs_view(params@) =~= p1);
    }
    params.push((String::from_str("sortOrder"), filters.sort_order.clone()));
    let ghost p2 = p1 + seq![("sortOrder"@, filters@.sort_order)];
    proof {
        assert(pairs_view(params@) =~= p2);
    }
    let mut tag_parts: Vec<String> = Vec::new();
    let mut ti: usize = 0;
    proof {
        assert(strs_view(tag_parts@) =~= filters@.tags.take(0));
    }
    while ti < filters.tags.len()
        invariant
            ti <= filters.tags@.len(),
            strs_view(tag_parts@) == filters@.tags.take(ti as int),
        decreases filters.tags@.len() - ti,
    {
        let ghost taken = filters@.tags.take(ti as int);
        tag_parts.push(filters.tags[ti].clone());
        proof {
            assert(strs_view(tag_parts@) =~= taken.push(filters@.tags[ti as int]));
            assert(taken.push(filters@.tags[ti as int]) =~= filters@.tags.take(ti as int + 1));
        }
        ti = ti + 1;
    }
    proof {
        assert(filters@.tags.take(filters.tags@.len() as int) =~= filters@.tags);
    }
    let ghost banged = filters@.exclude_tags.map_values(|t: Seq<char>| "!"@ + t);
    let mut ei: usize = 0;
    proof {
        assert(filters@.tags + banged.take(0) =~= filters@.tags);
    }
    while ei < filters.exclude_tags.len()
        invariant
            ei <= filters.exclude_tags@.len(),
            strs_view(tag_parts@) == filters@.tags + banged.take(ei as int),
        decreases filters.exclude_tags@.len() - ei,
    {
        let ghost sofar = strs_view(tag_parts@);
        let mut b = String::from_str("!");
        b.append(filters.exclude_tags[ei].as_str());
        tag_parts.push(b);
        proof {
            assert(banged[ei as int] == "!"@ + filters@.exclude_tags[ei as int]);
            assert(strs_view(tag_parts@) =~= sofar.push(banged[ei as int]));
            assert(filters@.tags + banged.take(ei as int + 1) =~= sofar.push(banged[ei as int]));
        }
        ei = ei + 1;
    }
    proof {
        assert(banged.take(filters.exclude_tags@.len() as int) =~= banged);
    }
    if tag_parts.len() > 0 {
        let joined = join_with(&tag_parts, ",");
        params.push((String::from_str("tags"), joined));
    }
    let ghost p3 = p2 + spec_tags_param(filters@.tags, filters@.exclude_tags);
    proof {
        assert(pairs_view(params@) =~= p3);
    }
    push_opt(&mut params, "minBpm", &filters.min_bpm);
    push_opt(&mut params, "maxBpm", &filters.max_bpm);
    push_opt(&mut params, "minNps", &filters.min_nps);
    push_opt(&mut params, "maxNps", &filters.max_nps);
    push_opt(&mut params, "minDuration", &filters.min_duration);
    push_opt(&mut params, "maxDuration", &filters.max_duration);
    push_opt(&mut params, "minRating", &filters.min_rating);
    push_opt(&mut params, "maxRating", &filters.max_rating);
    push_flag(&mut params, "curated", filters.curated);
    push_flag(&mut params, "verified", filters.verified);
    push_flag(&mut params, "automapper", filters.automapper);
    push_opt_nonempty(&mut params, "from", &filters.from);
    push_opt_nonempty(&mut params, "to", &filters.to);
    push_opt_nonempty(&mut params, "leaderboard", &filters.leaderboard);
    let ghost p17 = p3 + spec_opt_param("minBpm"@, filters@.min_bpm) + spec_opt_param(
        "maxBpm"@,
        filters@.max_bpm,
    ) + spec_opt_param("minNps"@, filters@.min_nps) + spec_opt_param("maxNps"@, filters@.max_nps)
        + spec_opt_param("minDuration"@, filters@.min_duration) + spec_opt_param(
        "maxDuration"@,
        filters@.max_duration,
    ) + spec_opt_param("minRating"@, filters@.min_rating) + spec_opt_param(
        "maxRating"@,
        filters@.max_rating,
    ) + spec_flag_param("curated"@, filters@.curated) + spec_flag_param(
        "verified"@,
        filters@.verified,
    ) + spec_flag_param("automapper"@, filters@.automapper) + spec_opt_nonempty_param(
        "from"@,
        filters@.from,
    ) + spec_opt_nonempty_param("to"@, filters@.to) + spec_opt_nonempty_param(
        "leaderboard"@,
        filters@.leaderboard,
    );
    proof {
        assert(pairs_view(params@) == p17);
    }
    if filters.page_size != 20 {
        params.push((String::from_str("pageSize"), i64_to_dec(filters.page_size)));
        proof {
            assert(pairs_view(params@) =~= p17 + spec_page_size_param(filters@.page_size));
        }
    } else {
        proof {
            assert(pairs_view(params@) =~= p17 + spec_page_size_param(filters@.page_size));
        }
    }
    proof {
        assert(pairs_view(params@) == spec_search_params(query@, filters@));
    }
    let ghost pv = pairs_view(params@);
    let mut pieces: Vec<String> = Vec::new();
    let ghost piece_of = |p: (Seq<char>, Seq<char>)| spec_url_encoded(p.0) + "="@
        + spec_url_encoded(p.1);
    let mut i: usize = 0;
    proof {
        assert(strs_view(pieces@) =~= pv.map_values(piece_of).take(0));
    }
    while i < params.len()
        invariant
            i <= params@.len(),
            pv == pairs_view(params@),
            strs_view(pieces@) == pv.map_values(piece_of).take(i as int),
        decreases params@.len() - i,
    {
        let ghost sofar = strs_view(pieces@);
        let mut piece = url_encode(params[i].0.as_str());
        piece.append("=");
        piece.append(url_encode(params[i].1.as_str()).as_str());
        pieces.push(piece);
        proof {
            assert(pv[i as int] == (params@[i as int].0@, params@[i as int].1@));
            assert(strs_view(pieces@) =~= sofar.push(piece_of(pv[i as int])));
            assert(sofar.push(pv.map_values(piece_of)[i as int]) =~= pv.map_values(piece_of).take(
                i as int + 1,
            ));
        }
        i = i + 1;
    }
    proof {
        assert(pv.map_values(piece_of).take(params@.len() as int) =~= pv.map_values(piece_of));
    }
    let qs = join_with(&pieces, "&");
    let mut url = String::from_str("https://api.beatsaver.com/search/text/");
    url.append(i64_to_dec(page).as_str());
    url.append("?");
    url.append(qs.as_str());
    proof {
        assert(url@ =~= spec_search_url(query@, page as int, filters@));
    }
    url
}

/// Builds the browse URL of one category.
pub fn build_browse_url(sort: &str, page_size: i64) -> (r: String)
    ensures
        r@ == spec_browse_url(sort@, page_size as int),
{
    let mut url = String::from_str("https://api.beatsaver.com/maps/latest?sort=");
    url.append(url_encode(sort).as_str());
    url.append("&automapper=false&pageSize=");
    url.append(i64_to_dec(page_size).as_str());
    proof {
        assert(url@ =~= spec_browse_url(sort@, page_size as int));
    }
    url
}

/// Builds the detail URL of one map id.
pub fn build_map_url(id: &str) -> (r: String)
    ensures
        r@ == spec_map_url(id@),
{
    let mut url = String::from_str("https://api.beatsaver.com/maps/id/");
    url.append(url_encode(id).as_str());
    proof {
        assert(url@ =~= spec_map_url(id@));
    }
    url
}

// ---------------------------------------------------------------------------
// Laws of the URL builder
// ---------------------------------------------------------------------------
/// Determinism: the search URL is a function of its inputs — any two
/// outputs that meet the builder's contract for the same inputs are
/// byte-identical.
pub proof fn lemma_search_url_deterministic(
    query: Seq<char>,
    page: int,
    f: FiltersView,
    r1: Seq<char>,
    r2: Seq<char>,
)
    requires
        r1 == spec_search_url(query, page, f),
        r2 == spec_search_url(query, page, f),
    ensures
        r1 == r2,
{
}

/// True when no parameter of the list carries the given key.
pub open spec fn no_key(params: Seq<(Seq<char>, Seq<char>)>, k: Seq<char>) -> bool {
    forall|i: int| 0 <= i < params.len() ==> #[trigger] params[i].0 != k
}

/// The page-size parameter appears in the search parameters exactly when
/// the page size differs from the default of 20.
pub proof fn lemma_page_size_param(query: Seq<char>, f: FiltersView)
    ensures
        f.page_size == 20 ==> no_key(spec_search_params(query, f), "pageSize"@),
        f.page_size != 20 ==> exists|i: int|
            0 <= i < spec_search_params(query, f).len() && #[trigger] spec_search_params(query, f)[i].0
                == "pageSize"@,
{
    let ps = spec_search_params(query, f);
    reveal_strlit("q");
    reveal_strlit("sortOrder");
    reveal_strlit("tags");
    reveal_strlit("minBpm");
    reveal_strlit("maxBpm");
    reveal_strlit("minNps");
    reveal_strlit("maxNps");
    reveal_strlit("minDuration");
    reveal_strlit("maxDuration");
    reveal_strlit("minRating");
    reveal_strlit("maxRating");
    reveal_strlit("curated");
    reveal_strlit("verified");
    reveal_strlit("automapper");
    reveal_strlit("from");
    reveal_strlit("to");
    reveal_strlit("leaderboard");
    reveal_strlit("pageSize");
    assert("pageSize"@.len() == 8);
    assert("q"@.len() == 1 && "q"@ != "pageSize"@);
    assert("sortOrder"@.len() == 9 && "sortOrder"@ != "pageSize"@);
    assert("tags"@.len() == 4 && "tags"@ != "pageSize"@);
    assert("minBpm"@.len() == 6 && "minBpm"@ != "pageSize"@);
    assert("maxBpm"@.len() == 6 && "maxBpm"@ != "pageSize"@);
    assert("minNps"@.len() == 6 && "minNps"@ != "pageSize"@);
    assert("maxNps"@.len() == 6 && "maxNps"@ != "pageSize"@);
    assert("minDuration"@.len() == 11 && "minDuration"@ != "pageSize"@);
    assert("maxDuration"@.len() == 11 && "maxDuration"@ != "pageSize"@);
    assert("minRating"@.len() == 9 && "minRating"@ != "pageSize"@);
    assert("maxRating"@.len() == 9 && "maxRating"@ != "pageSize"@);
    assert("curated"@.len() == 7 && "curated"@ != "pageSize"@);
    assert("verified"@[0] == 'v' && "pageSize"@[0] == 'p');
    assert("verified"@ != "pageSize"@);
    assert("automapper"@.len() == 10 && "automapper"@ != "pageSize"@);
    assert("from"@.len() == 4 && "from"@ != "pageSize"@);
    assert("to"@.len() == 2 && "to"@ != "pageSize"@);
    assert("leaderboard"@.len() == 11 && "leaderboard"@ != "pageSize"@);
    if f.page_size == 20 {
        assert forall|i: int| 0 <= i < ps.len() implies #[trigger] ps[i].0 != "pageSize"@ by {
            assert(spec_page_size_param(f.page_size).len() == 0);
        }
    } else {
        assert(ps[ps.len() - 1] == ("pageSize"@, spec_dec_int(f.page_size)));
        assert(spec_search_params(query, f)[ps.len() - 1].0 == "pageSize"@);
        assert(exists|i: int|
            0 <= i < spec_search_params(query, f).len() && #[trigger] spec_search_params(query, f)[i].0
                == "pageSize"@);
    }
}

} // verus!
