use blog_analytics::analytics::{
    compute_view_analytics, distinct_post_ids, scope_days, DailyViews, ScopeTotals, ViewRow,
};
use blog_analytics::geoip::GeoIpDatabase;

fn row(post_id: i32, ip: &str, title: &str) -> ViewRow {
    ViewRow { post_id, ip_address: ip.to_string(), title: title.to_string() }
}

fn totals(total_views: i64, total_unique_ips: i64, total_blog_posts: i64) -> ScopeTotals {
    ScopeTotals { total_views, total_unique_ips, total_blog_posts }
}

/// The percentage a consumer derives from a count and its scope total.
fn pct(count: i64, total: i64) -> f64 {
    if total > 0 {
        (count as f64 / total as f64) * 100.0
    } else {
        0.0
    }
}

#[test]
fn seventy_thirty_breakdown() {
    let db = GeoIpDatabase::new();
    let mut rows: Vec<ViewRow> = Vec::new();
    for _ in 0..7 {
        rows.push(row(1, "24.0.0.1", "Post"));
    }
    for _ in 0..3 {
        rows.push(row(1, "5.0.0.1", "Post"));
    }
    let r = compute_view_analytics(&db, &rows, &totals(10, 2, 1), Vec::new(), &Vec::new());
    assert_eq!(r.total_views, 10);
    assert_eq!(r.country_breakdown.len(), 2);
    assert_eq!(r.country_breakdown[0].country, "Canada");
    assert_eq!(r.country_breakdown[0].view_count, 7);
    assert_eq!(r.country_breakdown[1].country, "Russia");
    assert_eq!(r.country_breakdown[1].view_count, 3);
    let p0 = pct(r.country_breakdown[0].view_count, r.total_views);
    let p1 = pct(r.country_breakdown[1].view_count, r.total_views);
    assert_eq!(p0, 70.0);
    assert_eq!(p1, 30.0);
    assert_eq!(p0 + p1, 100.0);
}

#[test]
fn zero_scope_has_no_percentages_and_no_failure() {
    let db = GeoIpDatabase::new();
    let rows: Vec<ViewRow> = Vec::new();
    let r = compute_view_analytics(&db, &rows, &totals(0, 0, 0), Vec::new(), &Vec::new());
    assert_eq!(r.total_views, 0);
    assert_eq!(r.total_unique_ips, 0);
    assert_eq!(r.total_blog_posts, 0);
    assert!(r.country_breakdown.is_empty());
    assert!(r.blog_post_analytics.is_empty());
    assert!(r.daily_views.is_empty());
    // The percentage a consumer would derive from a zero total is 0.0, not
    // a division failure.
    assert_eq!(pct(5, 0), 0.0);
}

#[test]
fn post_totals_sum_to_scope_total() {
    let db = GeoIpDatabase::new();
    let mut rows: Vec<ViewRow> = Vec::new();
    for _ in 0..2 {
        rows.push(row(1, "24.0.0.1", "One"));
    }
    for _ in 0..3 {
        rows.push(row(2, "5.0.0.1", "Two"));
    }
    for _ in 0..5 {
        rows.push(row(3, "41.0.0.1", "Three"));
    }
    let r = compute_view_analytics(&db, &rows, &totals(10, 3, 3), Vec::new(), &Vec::new());
    let sum: i64 = r.blog_post_analytics.iter().map(|p| p.total_views).sum();
    assert_eq!(sum, r.total_views);
    // Sorted by descending total views.
    assert_eq!(r.blog_post_analytics[0].id, 3);
    assert_eq!(r.blog_post_analytics[0].total_views, 5);
    assert_eq!(r.blog_post_analytics[1].id, 2);
    assert_eq!(r.blog_post_analytics[2].id, 1);
}

#[test]
fn identical_inputs_give_identical_reports() {
    let db = GeoIpDatabase::new();
    let rows = vec![
        row(1, "24.0.0.1", "One"),
        row(2, "5.0.0.1", "Two"),
        row(1, "10.0.0.9", "One"),
        row(2, "bad-ip", "Two"),
    ];
    let daily = vec![DailyViews { date: "2024-05-02".to_string(), views: 4, unique_views: 3 }];
    let pd = vec![(
        1,
        vec![DailyViews { date: "2024-05-02".to_string(), views: 2, unique_views: 2 }],
    )];
    let r1 = compute_view_analytics(&db, &rows, &totals(4, 3, 2), daily.clone(), &pd);
    let r2 = compute_view_analytics(&db, &rows, &totals(4, 3, 2), daily, &pd);
    assert_eq!(r1, r2);
}

#[test]
fn window_selection() {
    // The store filters rows to the window the library selects; here ages
    // (in days) stand for the rows' timestamps.
    let ages: Vec<i32> = vec![0, 5, 40];
    let in_scope = |days: Option<i32>| -> usize {
        match scope_days(days) {
            None => ages.len(),
            Some(d) => ages.iter().filter(|a| **a < d).count(),
        }
    };
    // All time.
    assert_eq!(in_scope(Some(0)), 3);
    // An explicit window keeps only the trailing days.
    assert_eq!(in_scope(Some(10)), 2);
    assert_eq!(in_scope(Some(1)), 1);
    // The default is the last 30 days.
    assert_eq!(in_scope(None), 2);
    assert_eq!(scope_days(None), Some(30));
    assert_eq!(scope_days(Some(0)), None);
    assert_eq!(scope_days(Some(7)), Some(7));

    // The report's total is whatever the store counted in that scope.
    let db = GeoIpDatabase::new();
    let rows: Vec<ViewRow> =
        ages.iter().filter(|a| **a < 30).map(|_| row(1, "24.0.0.1", "Post")).collect();
    let n = rows.len() as i64;
    let r = compute_view_analytics(&db, &rows, &totals(n, 1, 1), Vec::new(), &Vec::new());
    assert_eq!(r.total_views, 2);
}

#[test]
fn daily_series_pass_through() {
    let db = GeoIpDatabase::new();
    let rows = vec![row(1, "24.0.0.1", "One"), row(2, "5.0.0.1", "Two")];
    let daily = vec![
        DailyViews { date: "2024-05-03".to_string(), views: 1, unique_views: 1 },
        DailyViews { date: "2024-05-02".to_string(), views: 1, unique_views: 1 },
    ];
    let pd = vec![
        (1, vec![DailyViews { date: "2024-05-03".to_string(), views: 1, unique_views: 1 }]),
        (2, vec![DailyViews { date: "2024-05-02".to_string(), views: 1, unique_views: 1 }]),
    ];
    let r = compute_view_analytics(&db, &rows, &totals(2, 2, 2), daily.clone(), &pd);
    assert_eq!(r.daily_views, daily);
    for p in &r.blog_post_analytics {
        assert_eq!(p.daily_views.len(), 1);
        if p.id == 1 {
            assert_eq!(p.daily_views[0].date, "2024-05-03");
        } else {
            assert_eq!(p.daily_views[0].date, "2024-05-02");
        }
    }

    // A post with no supplied series gets an empty one.
    let r2 = compute_view_analytics(&db, &rows, &totals(2, 2, 2), Vec::new(), &Vec::new());
    for p in &r2.blog_post_analytics {
        assert!(p.daily_views.is_empty());
    }
}

#[test]
fn per_post_breakdown_and_unique_ips_quirk() {
    let db = GeoIpDatabase::new();
    let rows = vec![
        row(1, "24.0.0.1", "One"),
        row(1, "24.0.0.2", "One"),
        row(1, "5.0.0.1", "One"),
    ];
    let r = compute_view_analytics(&db, &rows, &totals(3, 3, 1), Vec::new(), &Vec::new());
    assert_eq!(r.blog_post_analytics.len(), 1);
    let p = &r.blog_post_analytics[0];
    assert_eq!(p.total_views, 3);
    // The per-post distinct-address count is pinned to 0, not derived from
    // the scan.
    assert_eq!(p.unique_ips, 0);
    assert_eq!(p.country_breakdown[0].country, "Canada");
    assert_eq!(p.country_breakdown[0].view_count, 2);
    assert_eq!(p.country_breakdown[1].country, "Russia");
    assert_eq!(p.country_breakdown[1].view_count, 1);
    // Per-post percentages are relative to the post's own total.
    assert_eq!(pct(p.country_breakdown[0].view_count, p.total_views) > 66.6, true);
}

#[test]
fn title_is_first_seen() {
    let db = GeoIpDatabase::new();
    let rows = vec![row(1, "24.0.0.1", "First"), row(1, "24.0.0.1", "Second")];
    let r = compute_view_analytics(&db, &rows, &totals(2, 1, 1), Vec::new(), &Vec::new());
    assert_eq!(r.blog_post_analytics[0].title, "First");
}

#[test]
fn classifier_anomalies_are_data() {
    let db = GeoIpDatabase::new();
    let rows = vec![
        row(1, "bad-ip", "One"),
        row(1, "bad-ip", "One"),
        row(1, "200.0.0.1", "One"),
    ];
    let r = compute_view_analytics(&db, &rows, &totals(3, 2, 1), Vec::new(), &Vec::new());
    assert_eq!(r.country_breakdown[0].country, "Invalid IP");
    assert_eq!(r.country_breakdown[0].view_count, 2);
    assert_eq!(r.country_breakdown[1].country, "Unknown");
    assert_eq!(r.country_breakdown[1].view_count, 1);
}

#[test]
fn distinct_ids_in_first_seen_order() {
    let db = GeoIpDatabase::new();
    let rows = vec![
        row(5, "24.0.0.1", "Five"),
        row(7, "24.0.0.1", "Seven"),
        row(5, "5.0.0.1", "Five"),
        row(9, "24.0.0.1", "Nine"),
    ];
    assert_eq!(distinct_post_ids(&db, &rows), vec![5, 7, 9]);
}
