//! The analytics aggregation: a single pass over raw per-view records
//! classifies each IP address and folds the results into a global country
//! tally and per-post tallies; the tallies are then sorted by descending
//! count and assembled, together with store-computed totals and daily
//! series, into the final report.
//!
//! Every function here is pure: the caller fetches the raw rows, the scope
//! totals and the daily series from its store and hands them in as values.
use crate::cidr::CidrBlockV;
use crate::geoip::{spec_lookup, GeoIpDatabase};
use crate::sorting::{
    insert_desc, lemma_insert_desc_sorted, lemma_insert_desc_split, sort_desc, sorted_desc,
};
use vstd::prelude::*;

verus! {

/// One raw view record in scope: which post was viewed and from which
/// address, joined with the post's title.
pub struct ViewRow {
    pub post_id: i32,
    pub ip_address: String,
    pub title: String,
}

pub struct ViewRowV {
    pub post_id: i32,
    pub ip_address: Seq<char>,
    pub title: Seq<char>,
}

impl View for ViewRow {
    type V = ViewRowV;

    open spec fn view(&self) -> ViewRowV {
        ViewRowV { post_id: self.post_id, ip_address: self.ip_address@, title: self.title@ }
    }
}

/// The three scope-wide totals the store computes directly.
#[derive(Clone, Copy, Debug, PartialEq)]
pub struct ScopeTotals {
    pub total_views: i64,
    pub total_unique_ips: i64,
    pub total_blog_posts: i64,
}

/// One day of the daily series: total and distinct-address view counts.
#[derive(Clone, Debug, PartialEq)]
pub struct DailyViews {
    pub date: String,
    pub views: i64,
    pub unique_views: i64,
}

pub struct DailyViewsV {
    pub date: Seq<char>,
    pub views: i64,
    pub unique_views: i64,
}

impl View for DailyViews {
    type V = DailyViewsV;

    open spec fn view(&self) -> DailyViewsV {
        DailyViewsV { date: self.date@, views: self.views, unique_views: self.unique_views }
    }
}

/// One country of a breakdown with its view count.
#[derive(Clone, Debug, PartialEq)]
pub struct CountryViewCount {
    pub country: String,
    pub view_count: i64,
}

pub struct CountryViewCountV {
    pub country: Seq<char>,
    pub view_count: int,
}

impl View for CountryViewCount {
    type V = CountryViewCountV;

    open spec fn view(&self) -> CountryViewCountV {
        CountryViewCountV { country: self.country@, view_count: self.view_count as int }
    }
}

/// The views of a sequence of rows.
pub open spec fn row_views(s: Seq<ViewRow>) -> Seq<ViewRowV> {
    Seq::new(s.len(), |i: int| s[i]@)
}

/// The views of a sequence of breakdown entries.
pub open spec fn cvc_views(s: Seq<CountryViewCount>) -> Seq<CountryViewCountV> {
    Seq::new(s.len(), |i: int| s[i]@)
}

/// The views of a daily series.
pub open spec fn dv_views(s: Seq<DailyViews>) -> Seq<DailyViewsV> {
    Seq::new(s.len(), |i: int| s[i]@)
}

/// The country a row is classified under.
pub open spec fn row_country(db: Seq<CidrBlockV>, r: ViewRowV) -> Seq<char> {
    spec_lookup(db, r.ip_address)
}

/// Adds one view of country `c` to a tally: the first entry for `c` is
/// incremented, or a fresh entry with count 1 is appended.
pub open spec fn bump(t: Seq<CountryViewCountV>, c: Seq<char>) -> Seq<CountryViewCountV>
    decreases t.len(),
{
    if t.len() == 0 {
        seq![CountryViewCountV { country: c, view_count: 1 }]
    } else if t[0].country == c {
        seq![CountryViewCountV { country: c, view_count: t[0].view_count + 1 }] + t.drop_first()
    } else {
        seq![t[0]] + bump(t.drop_first(), c)
    }
}

/// The tally of all rows' countries, folded left to right.
pub open spec fn country_tally(db: Seq<CidrBlockV>, rows: Seq<ViewRowV>) -> Seq<CountryViewCountV>
    decreases rows.len(),
{
    if rows.len() == 0 {
        Seq::<CountryViewCountV>::empty()
    } else {
        bump(country_tally(db, rows.drop_last()), row_country(db, rows.last()))
    }
}

/// When `c` already has an entry (first at position `j`), `bump` increments
/// exactly that entry.
pub proof fn lemma_bump_found(t: Seq<CountryViewCountV>, c: Seq<char>, j: int)
    requires
        0 <= j < t.len(),
        t[j].country == c,
        forall|k: int| 0 <= k < j ==> (#[trigger] t[k]).country != c,
    ensures
        bump(t, c) == t.update(j, CountryViewCountV { country: c, view_count: t[j].view_count + 1 }),
    decreases t.len(),
{
    if j == 0 {
        assert(bump(t, c) =~= t.update(
            0,
            CountryViewCountV { country: c, view_count: t[0].view_count + 1 },
        ));
    } else {
        let s = t.drop_first();
        assert forall|k: int| 0 <= k < j - 1 implies (#[trigger] s[k]).country != c by {
            assert(s[k] == t[k + 1]);
        }
        assert(s[j - 1] == t[j]);
        lemma_bump_found(s, c, j - 1);
        assert(bump(t, c) =~= t.update(
            j,
            CountryViewCountV { country: c, view_count: t[j].view_count + 1 },
        ));
    }
}

/// When `c` has no entry, `bump` appends a fresh one.
pub proof fn lemma_bump_absent(t: Seq<CountryViewCountV>, c: Seq<char>)
    requires
        forall|k: int| 0 <= k < t.len() ==> (#[trigger] t[k]).country != c,
    ensures
        bump(t, c) == t.push(CountryViewCountV { country: c, view_count: 1 }),
    decreases t.len(),
{
    if t.len() == 0 {
        assert(bump(t, c) =~= t.push(CountryViewCountV { country: c, view_count: 1 }));
    } else {
        let s = t.drop_first();
        assert forall|k: int| 0 <= k < s.len() implies (#[trigger] s[k]).country != c by {
            assert(s[k] == t[k + 1]);
        }
        lemma_bump_absent(s, c);
        assert(bump(t, c) =~= t.push(CountryViewCountV { country: c, view_count: 1 }));
    }
}

/// Every count in the tally lies in `0 ..= b`.
pub open spec fn bounded_counts(t: Seq<CountryViewCountV>, b: int) -> bool {
    forall|k: int| 0 <= k < t.len() ==> 0 <= (#[trigger] t[k]).view_count <= b
}

/// Adds one view of `country` to the executable tally, as `bump` describes.
fn tally_increment(t: &mut Vec<CountryViewCount>, country: String, Ghost(b): Ghost<int>)
    requires
        bounded_counts(cvc_views(old(t)@), b),
        0 <= b < 0x7fff_ffff_ffff_ffff,
    ensures
        cvc_views(final(t)@) == bump(cvc_views(old(t)@), country@),
        bounded_counts(cvc_views(final(t)@), b + 1),
{
    let ghost tv = cvc_views(t@);
    let mut j: usize = 0;
    while j < t.len()
        invariant
            j <= t@.len(),
            t@ == old(t)@,
            tv == cvc_views(t@),
            bounded_counts(tv, b),
            0 <= b < 0x7fff_ffff_ffff_ffff,
            forall|k: int| 0 <= k < j ==> (#[trigger] tv[k]).country != country@,
        decreases t@.len() - j,
    {
        if t[j].country == country {
            proof {
                lemma_bump_found(tv, country@, j as int);
                assert(0 <= tv[j as int].view_count <= b);
            }
            let e = t.remove(j);
            let count = e.view_count;
            assert(0 <= count < 0x7fff_ffff_ffff_ffff);
            t.insert(j, CountryViewCount { country, view_count: count + 1 });
            proof {
                assert(cvc_views(t@) =~= tv.update(
                    j as int,
                    CountryViewCountV { country: country@, view_count: tv[j as int].view_count + 1 },
                ));
            }
            return ;
        }
        j = j + 1;
    }
    proof {
        lemma_bump_absent(tv, country@);
    }
    t.push(CountryViewCount { country, view_count: 1 });
    proof {
        assert(cvc_views(t@) =~= tv.push(CountryViewCountV { country: country@, view_count: 1 }));
    }
}

} // verus!

verus! {

/// The running per-post state during the scan: the post's title as first
/// seen, its country tally, and its total view count.
pub struct PostAcc {
    pub id: i32,
    pub title: String,
    pub countries: Vec<CountryViewCount>,
    pub total: i64,
}

pub struct PostAccV {
    pub id: i32,
    pub title: Seq<char>,
    pub countries: Seq<CountryViewCountV>,
    pub total: int,
}

impl View for PostAcc {
    type V = PostAccV;

    open spec fn view(&self) -> PostAccV {
        PostAccV {
            id: self.id,
            title: self.title@,
            countries: cvc_views(self.countries@),
            total: self.total as int,
        }
    }
}

/// The views of a sequence of per-post states.
pub open spec fn acc_views(s: Seq<PostAcc>) -> Seq<PostAccV> {
    Seq::new(s.len(), |i: int| s[i]@)
}

/// Adds one view of post `id` (titled `title`, from country `c`) to the
/// per-post states: the first entry for `id` is updated — its stored title
/// is kept — or a fresh entry is appended.
pub open spec fn bump_post(accs: Seq<PostAccV>, id: i32, title: Seq<char>, c: Seq<char>) -> Seq<
    PostAccV,
>
    decreases accs.len(),
{
    if accs.len() == 0 {
        seq![
            PostAccV {
                id,
                title,
                countries: bump(Seq::<CountryViewCountV>::empty(), c),
                total: 1,
            },
        ]
    } else if accs[0].id == id {
        seq![
            PostAccV {
                id,
                title: accs[0].title,
                countries: bump(accs[0].countries, c),
                total: accs[0].total + 1,
            },
        ] + accs.drop_first()
    } else {
        seq![accs[0]] + bump_post(accs.drop_first(), id, title, c)
    }
}

/// The per-post states after folding all rows, left to right.
pub open spec fn post_fold(db: Seq<CidrBlockV>, rows: Seq<ViewRowV>) -> Seq<PostAccV>
    decreases rows.len(),
{
    if rows.len() == 0 {
        Seq::<PostAccV>::empty()
    } else {
        bump_post(
            post_fold(db, rows.drop_last()),
            rows.last().post_id,
            rows.last().title,
            row_country(db, rows.last()),
        )
    }
}

/// When post `id` already has a state (first at position `j`), `bump_post`
/// updates exactly that state.
pub proof fn lemma_bump_post_found(
    accs: Seq<PostAccV>,
    id: i32,
    title: Seq<char>,
    c: Seq<char>,
    j: int,
)
    requires
        0 <= j < accs.len(),
        accs[j].id == id,
        forall|k: int| 0 <= k < j ==> (#[trigger] accs[k]).id != id,
    ensures
        bump_post(accs, id, title, c) == accs.update(
            j,
            PostAccV {
                id,
                title: accs[j].title,
                countries: bump(accs[j].countries, c),
                total: accs[j].total + 1,
            },
        ),
    decreases accs.len(),
{
    if j == 0 {
        assert(bump_post(accs, id, title, c) =~= accs.update(
            0,
            PostAccV {
                id,
                title: accs[0].title,
                countries: bump(accs[0].countries, c),
                total: accs[0].total + 1,
            },
        ));
    } else {
        let s = accs.drop_first();
        assert forall|k: int| 0 <= k < j - 1 implies (#[trigger] s[k]).id != id by {
            assert(s[k] == accs[k + 1]);
        }
        assert(s[j - 1] == accs[j]);
        lemma_bump_post_found(s, id, title, c, j - 1);
        assert(bump_post(accs, id, title, c) =~= accs.update(
            j,
            PostAccV {
                id,
                title: accs[j].title,
                countries: bump(accs[j].countries, c),
                total: accs[j].total + 1,
            },
        ));
    }
}

/// When post `id` has no state yet, `bump_post` appends a fresh one.
pub proof fn lemma_bump_post_absent(accs: Seq<PostAccV>, id: i32, title: Seq<char>, c: Seq<char>)
    requires
        forall|k: int| 0 <= k < accs.len() ==> (#[trigger] accs[k]).id != id,
    ensures
        bump_post(accs, id, title, c) == accs.push(
            PostAccV {
                id,
                title,
                countries: bump(Seq::<CountryViewCountV>::empty(), c),
                total: 1,
            },
        ),
    decreases accs.len(),
{
    if accs.len() == 0 {
    } else {
        let s = accs.drop_first();
        assert forall|k: int| 0 <= k < s.len() implies (#[trigger] s[k]).id != id by {
            assert(s[k] == accs[k + 1]);
        }
        lemma_bump_post_absent(s, id, title, c);
        assert(bump_post(accs, id, title, c) =~= accs.push(
            PostAccV {
                id,
                title,
                countries: bump(Seq::<CountryViewCountV>::empty(), c),
                total: 1,
            },
        ));
    }
}

/// Every per-post total and per-post country count lies in `0 ..= b`.
pub open spec fn bounded_accs(accs: Seq<PostAccV>, b: int) -> bool {
    forall|k: int|
        0 <= k < accs.len() ==> 0 <= (#[trigger] accs[k]).total <= b && bounded_counts(
            accs[k].countries,
            b,
        )
}

/// Adds one view of post `id` to the executable per-post states, as
/// `bump_post` describes.
fn accs_increment(
    accs: &mut Vec<PostAcc>,
    id: i32,
    title: String,
    country: String,
    Ghost(b): Ghost<int>,
)
    requires
        bounded_accs(acc_views(old(accs)@), b),
        0 <= b < 0x7fff_ffff_ffff_ffff,
    ensures
        acc_views(final(accs)@) == bump_post(acc_views(old(accs)@), id, title@, country@),
        bounded_accs(acc_views(final(accs)@), b + 1),
{
    let ghost av = acc_views(accs@);
    let mut j: usize = 0;
    while j < accs.len()
        invariant
            j <= accs@.len(),
            accs@ == old(accs)@,
            av == acc_views(accs@),
            bounded_accs(av, b),
            0 <= b < 0x7fff_ffff_ffff_ffff,
            forall|k: int| 0 <= k < j ==> (#[trigger] av[k]).id != id,
        decreases accs@.len() - j,
    {
        if accs[j].id == id {
            proof {
                lemma_bump_post_found(av, id, title@, country@, j as int);
                assert(0 <= av[j as int].total <= b);
                assert(bounded_counts(av[j as int].countries, b));
            }
            let mut e = accs.remove(j);
            tally_increment(&mut e.countries, country, Ghost(b));
            let total = e.total;
            accs.insert(
                j,
                PostAcc { id: e.id, title: e.title, countries: e.countries, total: total + 1 },
            );
            proof {
                assert(acc_views(accs@) =~= av.update(
                    j as int,
                    PostAccV {
                        id,
                        title: av[j as int].title,
                        countries: bump(av[j as int].countries, country@),
                        total: av[j as int].total + 1,
                    },
                ));
            }
            return ;
        }
        j = j + 1;
    }
    proof {
        lemma_bump_post_absent(av, id, title@, country@);
    }
    let mut fresh: Vec<CountryViewCount> = Vec::new();
    tally_increment(&mut fresh, country, Ghost(0));
    accs.push(PostAcc { id, title, countries: fresh, total: 1 });
    proof {
        assert(cvc_views(Seq::<CountryViewCount>::empty()) =~= Seq::<CountryViewCountV>::empty());
        assert(acc_views(accs@) =~= av.push(
            PostAccV {
                id,
                title: title@,
                countries: bump(Seq::<CountryViewCountV>::empty(), country@),
                total: 1,
            },
        ));
    }
}

} // verus!

verus! {

/// The analytics of one post: its totals, its own country breakdown, and
/// its daily series.  `unique_ips` is always reported as 0; the per-post
/// distinct-address count is not derived from the row scan.
#[derive(Debug, PartialEq)]
pub struct BlogPostAnalytics {
    pub id: i32,
    pub title: String,
    pub total_views: i64,
    pub unique_ips: i64,
    pub country_breakdown: Vec<CountryViewCount>,
    pub daily_views: Vec<DailyViews>,
}

pub struct BlogPostAnalyticsV {
    pub id: i32,
    pub title: Seq<char>,
    pub total_views: int,
    pub unique_ips: int,
    pub country_breakdown: Seq<CountryViewCountV>,
    pub daily_views: Seq<DailyViewsV>,
}

impl View for BlogPostAnalytics {
    type V = BlogPostAnalyticsV;

    open spec fn view(&self) -> BlogPostAnalyticsV {
        BlogPostAnalyticsV {
            id: self.id,
            title: self.title@,
            total_views: self.total_views as int,
            unique_ips: self.unique_ips as int,
            country_breakdown: cvc_views(self.country_breakdown@),
            daily_views: dv_views(self.daily_views@),
        }
    }
}

/// The views of a sequence of per-post analytics.
pub open spec fn pa_views(s: Seq<BlogPostAnalytics>) -> Seq<BlogPostAnalyticsV> {
    Seq::new(s.len(), |i: int| s[i]@)
}

/// The full report.
#[derive(Debug, PartialEq)]
pub struct ViewAnalytics {
    pub total_views: i64,
    pub total_unique_ips: i64,
    pub total_blog_posts: i64,
    pub country_breakdown: Vec<CountryViewCount>,
    pub blog_post_analytics: Vec<BlogPostAnalytics>,
    pub daily_views: Vec<DailyViews>,
}

pub struct ViewAnalyticsV {
    pub total_views: int,
    pub total_unique_ips: int,
    pub total_blog_posts: int,
    pub country_breakdown: Seq<CountryViewCountV>,
    pub blog_post_analytics: Seq<BlogPostAnalyticsV>,
    pub daily_views: Seq<DailyViewsV>,
}

impl View for ViewAnalytics {
    type V = ViewAnalyticsV;

    open spec fn view(&self) -> ViewAnalyticsV {
        ViewAnalyticsV {
            total_views: self.total_views as int,
            total_unique_ips: self.total_unique_ips as int,
            total_blog_posts: self.total_blog_posts as int,
            country_breakdown: cvc_views(self.country_breakdown@),
            blog_post_analytics: pa_views(self.blog_post_analytics@),
            daily_views: dv_views(self.daily_views@),
        }
    }
}

/// The key a breakdown is ordered by: the view count, descending.
pub open spec fn count_key() -> spec_fn(CountryViewCountV) -> int {
    |c: CountryViewCountV| c.view_count
}

/// The key the per-post list is ordered by: the total views, descending.
pub open spec fn post_total_key() -> spec_fn(BlogPostAnalyticsV) -> int {
    |p: BlogPostAnalyticsV| p.total_views
}

/// The views of the per-post daily series handed in by the caller.
pub open spec fn pd_views(s: Seq<(i32, Vec<DailyViews>)>) -> Seq<(i32, Seq<DailyViewsV>)> {
    Seq::new(s.len(), |i: int| (s[i].0, dv_views(s[i].1@)))
}

/// The daily series recorded for post `id`: the first entry with that id,
/// or the empty series if there is none.
pub open spec fn daily_for(pd: Seq<(i32, Seq<DailyViewsV>)>, id: i32) -> Seq<DailyViewsV>
    decreases pd.len(),
{
    if pd.len() == 0 {
        Seq::<DailyViewsV>::empty()
    } else if pd[0].0 == id {
        pd[0].1
    } else {
        daily_for(pd.drop_first(), id)
    }
}

proof fn lemma_daily_for_found(pd: Seq<(i32, Seq<DailyViewsV>)>, id: i32, j: int)
    requires
        0 <= j < pd.len(),
        pd[j].0 == id,
        forall|k: int| 0 <= k < j ==> (#[trigger] pd[k]).0 != id,
    ensures
        daily_for(pd, id) == pd[j].1,
    decreases pd.len(),
{
    if j > 0 {
        let s = pd.drop_first();
        assert forall|k: int| 0 <= k < j - 1 implies (#[trigger] s[k]).0 != id by {
            assert(s[k] == pd[k + 1]);
        }
        assert(s[j - 1] == pd[j]);
        lemma_daily_for_found(s, id, j - 1);
    }
}

proof fn lemma_daily_for_absent(pd: Seq<(i32, Seq<DailyViewsV>)>, id: i32)
    requires
        forall|k: int| 0 <= k < pd.len() ==> (#[trigger] pd[k]).0 != id,
    ensures
        daily_for(pd, id) == Seq::<DailyViewsV>::empty(),
    decreases pd.len(),
{
    if pd.len() > 0 {
        let s = pd.drop_first();
        assert forall|k: int| 0 <= k < s.len() implies (#[trigger] s[k]).0 != id by {
            assert(s[k] == pd[k + 1]);
        }
        lemma_daily_for_absent(s, id);
    }
}

/// Copies a daily series.
fn clone_daily(v: &Vec<DailyViews>) -> (r: Vec<DailyViews>)
    ensures
        dv_views(r@) == dv_views(v@),
{
    let mut r: Vec<DailyViews> = Vec::new();
    let mut i: usize = 0;
    while i < v.len()
        invariant
            i <= v@.len(),
            r@.len() == i,
            forall|k: int| 0 <= k < i ==> (#[trigger] r@[k])@ == v@[k]@,
        decreases v@.len() - i,
    {
        let e = &v[i];
        let date = e.date.clone();
        r.push(DailyViews { date, views: e.views, unique_views: e.unique_views });
        assert(r@[i as int]@.date == v@[i as int]@.date);
        i = i + 1;
    }
    proof {
        assert(dv_views(r@) =~= dv_views(v@));
    }
    r
}

/// Picks the daily series for post `id` out of the caller-supplied list, as
/// `daily_for` describes.
fn daily_for_exec(pd: &Vec<(i32, Vec<DailyViews>)>, id: i32) -> (r: Vec<DailyViews>)
    ensures
        dv_views(r@) == daily_for(pd_views(pd@), id),
{
    let ghost pdv = pd_views(pd@);
    let mut i: usize = 0;
    while i < pd.len()
        invariant
            i <= pd@.len(),
            pdv == pd_views(pd@),
            forall|k: int| 0 <= k < i ==> (#[trigger] pdv[k]).0 != id,
        decreases pd@.len() - i,
    {
        if pd[i].0 == id {
            proof {
                lemma_daily_for_found(pdv, id, i as int);
            }
            return clone_daily(&pd[i].1);
        }
        i = i + 1;
    }
    proof {
        lemma_daily_for_absent(pdv, id);
    }
    Vec::new()
}

/// One pass over the rows: classifies each address and folds the global
/// country tally and the per-post states, in row order.
fn tally_views(db: &GeoIpDatabase, rows: &Vec<ViewRow>) -> (r: (Vec<CountryViewCount>, Vec<PostAcc>))
    requires
        rows@.len() <= 0x7fff_ffff_ffff_ffff,
    ensures
        cvc_views(r.0@) == country_tally(db@, row_views(rows@)),
        acc_views(r.1@) == post_fold(db@, row_views(rows@)),
{
    let ghost rv = row_views(rows@);
    let mut tally: Vec<CountryViewCount> = Vec::new();
    let mut accs: Vec<PostAcc> = Vec::new();
    let mut i: usize = 0;
    proof {
        assert(cvc_views(tally@) =~= country_tally(db@, rv.take(0)));
        assert(acc_views(accs@) =~= post_fold(db@, rv.take(0)));
    }
    while i < rows.len()
        invariant
            i <= rows@.len(),
            rows@.len() <= 0x7fff_ffff_ffff_ffff,
            rv == row_views(rows@),
            cvc_views(tally@) == country_tally(db@, rv.take(i as int)),
            acc_views(accs@) == post_fold(db@, rv.take(i as int)),
            bounded_counts(cvc_views(tally@), i as int),
            bounded_accs(acc_views(accs@), i as int),
        decreases rows@.len() - i,
    {
        let row = &rows[i];
        let country = db.lookup_country(row.ip_address.as_str());
        proof {
            assert(rv[i as int] == rows@[i as int]@);
            assert(country@ == row_country(db@, rv[i as int]));
        }
        tally_increment(&mut tally, country.clone(), Ghost(i as int));
        accs_increment(&mut accs, row.post_id, row.title.clone(), country, Ghost(i as int));
        proof {
            let t = rv.take(i as int + 1);
            assert(t.drop_last() =~= rv.take(i as int));
            assert(t.last() == rv[i as int]);
        }
        i = i + 1;
    }
    proof {
        assert(rv.take(i as int) =~= rv);
    }
    (tally, accs)
}

/// Stable insertion sort of a breakdown by descending view count.
fn sort_breakdown(input: Vec<CountryViewCount>) -> (r: Vec<CountryViewCount>)
    ensures
        cvc_views(r@) == sort_desc(cvc_views(input@), count_key()),
        sorted_desc(cvc_views(r@), count_key()),
{
    let ghost orig = input@;
    let ghost ck = count_key();
    let mut input = input;
    let mut out: Vec<CountryViewCount> = Vec::new();
    proof {
        assert(input@ =~= orig.skip(0));
        assert(cvc_views(orig.take(0)) =~= Seq::<CountryViewCountV>::empty());
        assert(cvc_views(out@) =~= sort_desc(cvc_views(orig.take(0)), ck));
    }
    while input.len() > 0
        invariant
            ck == count_key(),
            input@.len() <= orig.len(),
            input@ == orig.skip(orig.len() - input@.len()),
            cvc_views(out@) == sort_desc(cvc_views(orig.take(orig.len() - input@.len())), ck),
            sorted_desc(cvc_views(out@), ck),
        decreases input@.len(),
    {
        let ghost k = orig.len() - input@.len();
        let ghost old_out = cvc_views(out@);
        let b = input.remove(0);
        proof {
            assert(b == orig[k as int]);
            assert(input@ =~= orig.skip(k as int + 1));
        }
        let mut j: usize = out.len();
        while j > 0 && out[j - 1].view_count < b.view_count
            invariant
                j <= out@.len(),
                forall|m: int|
                    j <= m < out@.len() ==> (#[trigger] out@[m])@.view_count < b@.view_count,
            decreases j,
        {
            j = j - 1;
        }
        let ghost jj = j as int;
        out.insert(j, b);
        proof {
            assert forall|m: int| jj <= m < old_out.len() implies ck(#[trigger] old_out[m]) < ck(
                b@,
            ) by {
                assert(old_out[m] == out@[m + 1]@);
            }
            if jj > 0 {
                assert(ck(old_out[jj - 1]) >= ck(b@));
            }
            lemma_insert_desc_split(old_out, b@, ck, jj);
            lemma_insert_desc_sorted(old_out, b@, ck, jj);
            assert(cvc_views(out@) =~= insert_desc(old_out, b@, ck));
            let t = cvc_views(orig.take(k as int + 1));
            assert(t.drop_last() =~= cvc_views(orig.take(k as int)));
            assert(t.last() == b@);
            assert(sort_desc(t, ck) == insert_desc(old_out, b@, ck));
            assert(orig.len() - input@.len() == k + 1);
        }
    }
    proof {
        assert(orig.take(orig.len() as int) =~= orig);
    }
    out
}

/// Stable insertion sort of the per-post list by descending total views.
fn sort_posts(input: Vec<BlogPostAnalytics>) -> (r: Vec<BlogPostAnalytics>)
    ensures
        pa_views(r@) == sort_desc(pa_views(input@), post_total_key()),
        sorted_desc(pa_views(r@), post_total_key()),
{
    let ghost orig = input@;
    let ghost pk = post_total_key();
    let mut input = input;
    let mut out: Vec<BlogPostAnalytics> = Vec::new();
    proof {
        assert(input@ =~= orig.skip(0));
        assert(pa_views(orig.take(0)) =~= Seq::<BlogPostAnalyticsV>::empty());
        assert(pa_views(out@) =~= sort_desc(pa_views(orig.take(0)), pk));
    }
    while input.len() > 0
        invariant
            pk == post_total_key(),
            input@.len() <= orig.len(),
            input@ == orig.skip(orig.len() - input@.len()),
            pa_views(out@) == sort_desc(pa_views(orig.take(orig.len() - input@.len())), pk),
            sorted_desc(pa_views(out@), pk),
        decreases input@.len(),
    {
        let ghost k = orig.len() - input@.len();
        let ghost old_out = pa_views(out@);
        let b = input.remove(0);
        proof {
            assert(b == orig[k as int]);
            assert(input@ =~= orig.skip(k as int + 1));
        }
        let mut j: usize = out.len();
        while j > 0 && out[j - 1].total_views < b.total_views
            invariant
                j <= out@.len(),
                forall|m: int|
                    j <= m < out@.len() ==> (#[trigger] out@[m])@.total_views < b@.total_views,
            decreases j,
        {
            j = j - 1;
        }
        let ghost jj = j as int;
        out.insert(j, b);
        proof {
            assert forall|m: int| jj <= m < old_out.len() implies pk(#[trigger] old_out[m]) < pk(
                b@,
            ) by {
                assert(old_out[m] == out@[m + 1]@);
            }
            if jj > 0 {
                assert(pk(old_out[jj - 1]) >= pk(b@));
            }
            lemma_insert_desc_split(old_out, b@, pk, jj);
            lemma_insert_desc_sorted(old_out, b@, pk, jj);
            assert(pa_views(out@) =~= insert_desc(old_out, b@, pk));
            let t = pa_views(orig.take(k as int + 1));
            assert(t.drop_last() =~= pa_views(orig.take(k as int)));
            assert(t.last() == b@);
            assert(sort_desc(t, pk) == insert_desc(old_out, b@, pk));
            assert(orig.len() - input@.len() == k + 1);
        }
    }
    proof {
        assert(orig.take(orig.len() as int) =~= orig);
    }
    out
}

} // verus!

verus! {

/// The analytics of one post, assembled from its folded state: the
/// breakdown sorted by descending count, the caller-supplied daily series
/// for the post, and `unique_ips` pinned to 0.
pub open spec fn post_report(a: PostAccV, pd: Seq<(i32, Seq<DailyViewsV>)>) -> BlogPostAnalyticsV {
    BlogPostAnalyticsV {
        id: a.id,
        title: a.title,
        total_views: a.total,
        unique_ips: 0,
        country_breakdown: sort_desc(a.countries, count_key()),
        daily_views: daily_for(pd, a.id),
    }
}

/// The per-post analytics of all folded states, in fold order.
pub open spec fn post_reports(accs: Seq<PostAccV>, pd: Seq<(i32, Seq<DailyViewsV>)>) -> Seq<
    BlogPostAnalyticsV,
> {
    accs.map_values(|a: PostAccV| post_report(a, pd))
}

/// The whole report as a function of the inputs: the totals and the daily
/// series as handed in by the store, the country breakdown as the sorted
/// tally of the rows, and one entry per distinct post, sorted by descending
/// total views.
pub open spec fn spec_report(
    db: Seq<CidrBlockV>,
    rows: Seq<ViewRowV>,
    totals: ScopeTotals,
    daily: Seq<DailyViewsV>,
    pd: Seq<(i32, Seq<DailyViewsV>)>,
) -> ViewAnalyticsV {
    ViewAnalyticsV {
        total_views: totals.total_views as int,
        total_unique_ips: totals.total_unique_ips as int,
        total_blog_posts: totals.total_blog_posts as int,
        country_breakdown: sort_desc(country_tally(db, rows), count_key()),
        blog_post_analytics: sort_desc(post_reports(post_fold(db, rows), pd), post_total_key()),
        daily_views: daily,
    }
}

/// Builds the report for the given scope.  The caller supplies the raw rows
/// of the scope, the three store-computed totals, the scope's daily series
/// (date-descending), and one daily series per post in scope.
///
/// The result is a function of the arguments alone, so two calls on equal
/// inputs yield equal reports.
pub fn compute_view_analytics(
    db: &GeoIpDatabase,
    rows: &Vec<ViewRow>,
    totals: &ScopeTotals,
    daily: Vec<DailyViews>,
    post_daily: &Vec<(i32, Vec<DailyViews>)>,
) -> (r: ViewAnalytics)
    requires
        rows@.len() <= 0x7fff_ffff_ffff_ffff,
    ensures
        r@ == spec_report(
            db@,
            row_views(rows@),
            *totals,
            dv_views(daily@),
            pd_views(post_daily@),
        ),
{
    let ghost rv = row_views(rows@);
    let ghost pdv = pd_views(post_daily@);
    let (tally, accs) = tally_views(db, rows);
    let country_breakdown = sort_breakdown(tally);
    let ghost accsv = acc_views(accs@);
    let mut accs = accs;
    let mut posts: Vec<BlogPostAnalytics> = Vec::new();
    while accs.len() > 0
        invariant
            pdv == pd_views(post_daily@),
            accs@.len() + posts@.len() == accsv.len(),
            forall|m: int|
                0 <= m < accs@.len() ==> (#[trigger] accs@[m])@ == accsv[m + posts@.len()],
            forall|m: int|
                0 <= m < posts@.len() ==> (#[trigger] posts@[m])@ == post_report(accsv[m], pdv),
        decreases accs@.len(),
    {
        let ghost k = posts@.len() as int;
        let ghost old_accs = accs@;
        let a = accs.remove(0);
        proof {
            assert(a == old_accs[0]);
            assert(a@ == accsv[k]);
            assert(accs@ =~= old_accs.subrange(1, old_accs.len() as int));
            assert forall|m: int| 0 <= m < accs@.len() implies (#[trigger] accs@[m])@ == accsv[m
                + k + 1] by {
                assert(accs@[m] == old_accs[m + 1]);
            }
        }
        let breakdown = sort_breakdown(a.countries);
        let daily_list = daily_for_exec(post_daily, a.id);
        posts.push(
            BlogPostAnalytics {
                id: a.id,
                title: a.title,
                total_views: a.total,
                unique_ips: 0,
                country_breakdown: breakdown,
                daily_views: daily_list,
            },
        );
        assert(posts@[k]@ == post_report(accsv[k], pdv));
    }
    proof {
        assert(pa_views(posts@) =~= post_reports(accsv, pdv));
    }
    let posts = sort_posts(posts);
    let r = ViewAnalytics {
        total_views: totals.total_views,
        total_unique_ips: totals.total_unique_ips,
        total_blog_posts: totals.total_blog_posts,
        country_breakdown,
        blog_post_analytics: posts,
        daily_views: daily,
    };
    proof {
        assert(r@.blog_post_analytics == spec_report(
            db@,
            rv,
            *totals,
            dv_views(daily@),
            pdv,
        ).blog_post_analytics);
    }
    r
}

/// The distinct post ids of the scope's rows, in first-seen order: the ids
/// of the folded per-post states.
pub fn distinct_post_ids(db: &GeoIpDatabase, rows: &Vec<ViewRow>) -> (r: Vec<i32>)
    requires
        rows@.len() <= 0x7fff_ffff_ffff_ffff,
    ensures
        r@ == post_fold(db@, row_views(rows@)).map_values(|a: PostAccV| a.id),
{
    let (_tally, accs) = tally_views(db, rows);
    let mut r: Vec<i32> = Vec::new();
    let mut i: usize = 0;
    while i < accs.len()
        invariant
            i <= accs@.len(),
            acc_views(accs@) == post_fold(db@, row_views(rows@)),
            r@.len() == i,
            forall|k: int| 0 <= k < i ==> r@[k] == (#[trigger] accs@[k])@.id,
        decreases accs@.len() - i,
    {
        r.push(accs[i].id);
        i = i + 1;
    }
    proof {
        assert(r@ =~= post_fold(db@, row_views(rows@)).map_values(|a: PostAccV| a.id));
    }
    r
}

/// The day window a request selects: an explicit 0 means all time (`None`
/// here), any other explicit value means the last so many days, and an
/// absent argument defaults to the last 30 days.
pub open spec fn spec_scope_days(days: Option<i32>) -> Option<i32> {
    match days {
        Some(d) => if d == 0 {
            None
        } else {
            Some(d)
        },
        None => Some(30),
    }
}

/// Maps the caller's optional day count to the scope window, as
/// `spec_scope_days` describes.
pub fn scope_days(days: Option<i32>) -> (r: Option<i32>)
    ensures
        r == spec_scope_days(days),
{
    match days {
        Some(d) => if d == 0 {
            None
        } else {
            Some(d)
        },
        None => Some(30),
    }
}

} // verus!

verus! {

/// The sum of the totals of folded per-post states.
pub open spec fn sum_acc_totals(s: Seq<PostAccV>) -> int
    decreases s.len(),
{
    if s.len() == 0 {
        0
    } else {
        sum_acc_totals(s.drop_last()) + s.last().total
    }
}

/// The sum of the `total_views` fields of per-post analytics.
pub open spec fn sum_post_views(s: Seq<BlogPostAnalyticsV>) -> int
    decreases s.len(),
{
    if s.len() == 0 {
        0
    } else {
        sum_post_views(s.drop_last()) + s.last().total_views
    }
}

proof fn lemma_sum_acc_cons(x: PostAccV, t: Seq<PostAccV>)
    ensures
        sum_acc_totals(seq![x] + t) == x.total + sum_acc_totals(t),
    decreases t.len(),
{
    if t.len() == 0 {
        assert(seq![x] + t =~= seq![x]);
        assert(sum_acc_totals(t) == 0);
        assert(seq![x].drop_last() =~= Seq::<PostAccV>::empty());
        assert(sum_acc_totals(seq![x].drop_last()) == 0);
        assert(seq![x].last() == x);
        assert(sum_acc_totals(seq![x]) == x.total);
        assert(sum_acc_totals(seq![x] + t) == x.total + sum_acc_totals(t));
    } else {
        lemma_sum_acc_cons(x, t.drop_last());
        assert((seq![x] + t).drop_last() =~= seq![x] + t.drop_last());
        assert((seq![x] + t).last() == t.last());
    }
}

proof fn lemma_bump_post_sum(accs: Seq<PostAccV>, id: i32, title: Seq<char>, c: Seq<char>)
    ensures
        sum_acc_totals(bump_post(accs, id, title, c)) == sum_acc_totals(accs) + 1,
    decreases accs.len(),
{
    if accs.len() == 0 {
        let x = PostAccV {
            id,
            title,
            countries: bump(Seq::<CountryViewCountV>::empty(), c),
            total: 1,
        };
        assert(sum_acc_totals(accs) == 0);
        assert(seq![x].drop_last() =~= Seq::<PostAccV>::empty());
        assert(sum_acc_totals(seq![x].drop_last()) == 0);
        assert(seq![x].last() == x);
        assert(bump_post(accs, id, title, c) == seq![x]);
        assert(sum_acc_totals(bump_post(accs, id, title, c)) == 1);
    } else if accs[0].id == id {
        let x = PostAccV {
            id,
            title: accs[0].title,
            countries: bump(accs[0].countries, c),
            total: accs[0].total + 1,
        };
        lemma_sum_acc_cons(x, accs.drop_first());
        lemma_sum_acc_cons(accs[0], accs.drop_first());
        assert(seq![accs[0]] + accs.drop_first() =~= accs);
    } else {
        lemma_bump_post_sum(accs.drop_first(), id, title, c);
        lemma_sum_acc_cons(accs[0], bump_post(accs.drop_first(), id, title, c));
        lemma_sum_acc_cons(accs[0], accs.drop_first());
        assert(seq![accs[0]] + accs.drop_first() =~= accs);
    }
}

/// The per-post totals of the fold sum to the number of rows folded.
pub proof fn lemma_post_fold_sum(db: Seq<CidrBlockV>, rows: Seq<ViewRowV>)
    ensures
        sum_acc_totals(post_fold(db, rows)) == rows.len(),
    decreases rows.len(),
{
    if rows.len() > 0 {
        lemma_post_fold_sum(db, rows.drop_last());
        lemma_bump_post_sum(
            post_fold(db, rows.drop_last()),
            rows.last().post_id,
            rows.last().title,
            row_country(db, rows.last()),
        );
    }
}

proof fn lemma_post_reports_sum(accs: Seq<PostAccV>, pd: Seq<(i32, Seq<DailyViewsV>)>)
    ensures
        sum_post_views(post_reports(accs, pd)) == sum_acc_totals(accs),
    decreases accs.len(),
{
    if accs.len() > 0 {
        lemma_post_reports_sum(accs.drop_last(), pd);
        assert(post_reports(accs, pd).drop_last() =~= post_reports(accs.drop_last(), pd));
        assert(post_reports(accs, pd).last() == post_report(accs.last(), pd));
    }
}

proof fn lemma_insert_desc_sum(
    s: Seq<BlogPostAnalyticsV>,
    x: BlogPostAnalyticsV,
    key: spec_fn(BlogPostAnalyticsV) -> int,
)
    ensures
        sum_post_views(insert_desc(s, x, key)) == sum_post_views(s) + x.total_views,
    decreases s.len(),
{
    if s.len() == 0 {
        assert(sum_post_views(s) == 0);
        assert(seq![x].drop_last() =~= Seq::<BlogPostAnalyticsV>::empty());
        assert(sum_post_views(seq![x].drop_last()) == 0);
        assert(seq![x].last() == x);
        assert(insert_desc(s, x, key) == seq![x]);
        assert(sum_post_views(insert_desc(s, x, key)) == x.total_views);
    } else if key(s.last()) >= key(x) {
        assert(s.push(x).drop_last() =~= s);
        assert(s.push(x).last() == x);
        assert(sum_post_views(s.push(x)) == sum_post_views(s) + x.total_views);
    } else {
        lemma_insert_desc_sum(s.drop_last(), x, key);
        let u = insert_desc(s.drop_last(), x, key);
        assert(u.push(s.last()).drop_last() =~= u);
        assert(u.push(s.last()).last() == s.last());
        assert(sum_post_views(u.push(s.last())) == sum_post_views(u) + s.last().total_views);
        assert(sum_post_views(s) == sum_post_views(s.drop_last()) + s.last().total_views);
    }
}

proof fn lemma_sort_desc_sum(s: Seq<BlogPostAnalyticsV>, key: spec_fn(BlogPostAnalyticsV) -> int)
    ensures
        sum_post_views(sort_desc(s, key)) == sum_post_views(s),
    decreases s.len(),
{
    if s.len() > 0 {
        lemma_sort_desc_sum(s.drop_last(), key);
        lemma_insert_desc_sum(sort_desc(s.drop_last(), key), s.last(), key);
    }
}

/// The per-post `total_views` of the report sum to the number of rows in
/// scope; so when the store's scope total agrees with the rows it returned
/// — as it does whenever the two queries see the same data — the per-post
/// totals sum exactly to the report's `total_views`.
pub proof fn lemma_report_totals_consistent(
    db: Seq<CidrBlockV>,
    rows: Seq<ViewRowV>,
    totals: ScopeTotals,
    daily: Seq<DailyViewsV>,
    pd: Seq<(i32, Seq<DailyViewsV>)>,
)
    ensures
        sum_post_views(spec_report(db, rows, totals, daily, pd).blog_post_analytics)
            == rows.len(),
        totals.total_views == rows.len() ==> sum_post_views(
            spec_report(db, rows, totals, daily, pd).blog_post_analytics,
        ) == spec_report(db, rows, totals, daily, pd).total_views,
{
    lemma_post_fold_sum(db, rows);
    lemma_post_reports_sum(post_fold(db, rows), pd);
    lemma_sort_desc_sum(post_reports(post_fold(db, rows), pd), post_total_key());
}

} // verus!

verus! {

/// A scope with no rows yields an empty country breakdown and an empty
/// per-post list: no count exists that a consumer could divide by the
/// scope's total, so no percentage is ever formed from a zero total.
pub proof fn lemma_empty_scope(
    db: Seq<CidrBlockV>,
    totals: ScopeTotals,
    daily: Seq<DailyViewsV>,
    pd: Seq<(i32, Seq<DailyViewsV>)>,
)
    ensures
        spec_report(db, Seq::<ViewRowV>::empty(), totals, daily, pd).country_breakdown
            == Seq::<CountryViewCountV>::empty(),
        spec_report(db, Seq::<ViewRowV>::empty(), totals, daily, pd).blog_post_analytics
            == Seq::<BlogPostAnalyticsV>::empty(),
{
    let rows = Seq::<ViewRowV>::empty();
    assert(country_tally(db, rows) == Seq::<CountryViewCountV>::empty());
    assert(post_fold(db, rows) == Seq::<PostAccV>::empty());
    assert(post_reports(post_fold(db, rows), pd) =~= Seq::<BlogPostAnalyticsV>::empty());
    assert(sort_desc(Seq::<CountryViewCountV>::empty(), count_key())
        == Seq::<CountryViewCountV>::empty());
    assert(sort_desc(Seq::<BlogPostAnalyticsV>::empty(), post_total_key())
        == Seq::<BlogPostAnalyticsV>::empty());
}

} // verus!
