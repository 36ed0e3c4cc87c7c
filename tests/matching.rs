use wallhaven_plugin::matcher::{
    tag_is_not_excluded, tags_are_admissible, MatchResult, MatchStep, Phase, SearchPolicy,
    WallpaperMatcher,
};
use wallhaven_plugin::wallhaven::{
    search_url, tag_names, wallpaper_url, CatalogError, Metadata, QueryResult, Resolution, Tag,
    Wallpaper, WallpaperInfo,
};

const DEFAULT_RESOLUTION: Resolution = Resolution { width: 3840, height: 2160 };

fn info(id: &str) -> WallpaperInfo {
    WallpaperInfo {
        id: id.to_string(),
        url: format!("https://wallhaven.cc/w/{}", id),
        path: format!("https://w.wallhaven.cc/full/{}.jpg", id),
    }
}

fn page(ids: &[&str]) -> QueryResult {
    QueryResult {
        data: ids.iter().map(|id| info(id)).collect(),
        meta: Metadata { last_page: 1, seed: "abc123".to_string() },
    }
}

fn wallpaper(tags: &[&str]) -> Wallpaper {
    Wallpaper { tags: tags.iter().map(|t| Tag { name: t.to_string() }).collect() }
}

fn policy(q: Option<&str>, exclude: &[&str]) -> SearchPolicy {
    SearchPolicy {
        q: q.map(|s| s.to_string()),
        exclude_similar_tags: exclude.iter().map(|s| s.to_string()).collect(),
    }
}

/// Runs a matcher against a canned catalog: the search reply, then the tags
/// of each item by identifier. Returns the outcome and the identifiers whose
/// tags were asked for, in order.
fn drive(
    policy: &SearchPolicy,
    search: Result<QueryResult, CatalogError>,
    tags_of: &dyn Fn(&str) -> Result<Wallpaper, CatalogError>,
) -> (Result<MatchResult, CatalogError>, Vec<String>) {
    let mut matcher = WallpaperMatcher::new(policy);
    let mut fetched = Vec::new();
    let mut step = matcher.search_done(search);
    loop {
        match step {
            MatchStep::FetchTags(id) => {
                assert_eq!(matcher.phase(), Phase::Fetching);
                let reply = tags_of(&id);
                fetched.push(id);
                step = matcher.tags_fetched(reply);
            }
            MatchStep::Done(outcome) => {
                assert_eq!(matcher.phase(), Phase::Finished);
                return (outcome, fetched);
            }
        }
    }
}

#[test]
fn valid_simple_query() {
    let config = policy(Some("car"), &[]);
    let url = search_url(config.q.as_deref(), &DEFAULT_RESOLUTION);
    assert_eq!(
        url,
        "https://wallhaven.cc/api/v1/search?sorting=random&atleast=3840x2160&q=car"
    );
    let (result, fetched) =
        drive(&config, Ok(page(&["k7q9", "p2z1"])), &|_| Ok(wallpaper(&["Car", "Sports Car"])));
    println!("{:#?}", result);
    let result = result.unwrap();
    assert!(matches!(result, MatchResult::Found(..)));
    if let MatchResult::Found(found, tags) = result {
        assert_eq!(found.id, "k7q9");
        assert!(!found.url.is_empty());
        assert_eq!(tags, vec!["car".to_string(), "sports car".to_string()]);
    }
    assert_eq!(fetched, vec!["k7q9".to_string()]);
}

#[test]
fn no_matches() {
    let config = policy(Some("340282366920938463463374607431768"), &[]);
    let url = search_url(config.q.as_deref(), &DEFAULT_RESOLUTION);
    assert!(url.ends_with("&q=340282366920938463463374607431768"));
    let (result, fetched) = drive(&config, Ok(page(&[])), &|_| Ok(wallpaper(&[])));
    println!("{:#?}", result);
    assert!(matches!(result, Ok(MatchResult::NotFound)));
    assert!(fetched.is_empty());
}

#[test]
fn no_query() {
    let config = policy(None, &[]);
    let url = search_url(config.q.as_deref(), &DEFAULT_RESOLUTION);
    assert_eq!(url, "https://wallhaven.cc/api/v1/search?sorting=random&atleast=3840x2160");
    let (result, _) = drive(&config, Ok(page(&["a1", "b2", "c3"])), &|_| Ok(wallpaper(&["anime"])));
    println!("{:#?}", result);
    assert!(matches!(result, Ok(MatchResult::Found(ref w, _)) if w.id == "a1"));
}

#[test]
fn fourth_candidate_after_three_neon() {
    let config = policy(None, &["neon"]);
    let (result, fetched) = drive(&config, Ok(page(&["w1", "w2", "w3", "w4", "w5"])), &|id| {
        if id == "w4" || id == "w5" {
            Ok(wallpaper(&["city", "night"]))
        } else {
            Ok(wallpaper(&["city", "neon lights"]))
        }
    });
    match result {
        Ok(MatchResult::Found(found, tags)) => {
            assert_eq!(found.id, "w4");
            assert_eq!(tags, vec!["city".to_string(), "night".to_string()]);
        }
        other => panic!("unexpected outcome {:?}", other),
    }
    assert_eq!(fetched, vec!["w1", "w2", "w3", "w4"]);
}

#[test]
fn search_transport_failure_propagates() {
    let config = policy(Some("car"), &[]);
    let (result, fetched) = drive(
        &config,
        Err(CatalogError::Transport("connection refused".to_string())),
        &|_| Ok(wallpaper(&[])),
    );
    assert!(matches!(result, Err(CatalogError::Transport(ref m)) if m == "connection refused"));
    assert!(fetched.is_empty());
}

#[test]
fn tag_failure_aborts_run() {
    let config = policy(None, &["neon"]);
    let (result, fetched) = drive(&config, Ok(page(&["x1", "x2", "x3"])), &|id| {
        if id == "x2" {
            Err(CatalogError::Decode("missing field `tags`".to_string()))
        } else {
            Ok(wallpaper(&["neon"]))
        }
    });
    assert!(matches!(result, Err(CatalogError::Decode(_))));
    assert_eq!(fetched, vec!["x1", "x2"]);
}

#[test]
fn every_candidate_rejected() {
    let config = policy(None, &["car"]);
    let (result, fetched) =
        drive(&config, Ok(page(&["r1", "r2", "r3"])), &|_| Ok(wallpaper(&["RaceCar"])));
    assert!(matches!(result, Ok(MatchResult::NotFound)));
    assert_eq!(fetched, vec!["r1", "r2", "r3"]);
}

#[test]
fn empty_exclusions_take_first_candidate() {
    let config = policy(None, &[]);
    let (result, fetched) =
        drive(&config, Ok(page(&["f1", "f2"])), &|_| Ok(wallpaper(&["neon", "car"])));
    assert!(matches!(result, Ok(MatchResult::Found(ref w, _)) if w.id == "f1"));
    assert_eq!(fetched, vec!["f1"]);
}

#[test]
fn exclusions_ignore_case() {
    let config = policy(None, &["NEON"]);
    let (result, fetched) = drive(&config, Ok(page(&["c1", "c2"])), &|id| {
        if id == "c1" {
            Ok(wallpaper(&["Neon Sign"]))
        } else {
            Ok(wallpaper(&["forest"]))
        }
    });
    assert!(matches!(result, Ok(MatchResult::Found(ref w, _)) if w.id == "c2"));
    assert_eq!(fetched, vec!["c1", "c2"]);
}

#[test]
fn untagged_candidate_is_admissible() {
    let config = policy(None, &["neon"]);
    let (result, _) = drive(&config, Ok(page(&["u1"])), &|_| Ok(wallpaper(&[])));
    assert!(matches!(result, Ok(MatchResult::Found(ref w, ref t)) if w.id == "u1" && t.is_empty()));
}

#[test]
fn substring_exclusion() {
    let excl = vec!["car".to_string()];
    assert!(!tag_is_not_excluded(&excl, &"racecar".to_string()));
    assert!(tag_is_not_excluded(&excl, &"boat".to_string()));
    assert!(tag_is_not_excluded(&vec![], &"racecar".to_string()));
    assert!(!tag_is_not_excluded(&vec!["x".to_string(), "".to_string()], &"boat".to_string()));
}

#[test]
fn admissibility_of_tag_sets() {
    let excl = vec!["neon".to_string(), "car".to_string()];
    assert!(tags_are_admissible(&excl, &vec![]));
    assert!(tags_are_admissible(&excl, &vec!["city".to_string(), "night".to_string()]));
    assert!(!tags_are_admissible(&excl, &vec!["city".to_string(), "scarf".to_string()]));
    assert!(tags_are_admissible(&vec![], &vec!["neon".to_string()]));
}

#[test]
fn tag_names_are_lowercased() {
    let w = wallpaper(&["Sports Car", "ÉTÉ", "sky"]);
    assert_eq!(tag_names(&w), vec!["sports car".to_string(), "été".to_string(), "sky".to_string()]);
}

#[test]
fn tag_names_twice_agree() {
    let w = wallpaper(&["Mountain", "Lake"]);
    assert_eq!(tag_names(&w), tag_names(&w));
}

#[test]
fn detail_url() {
    assert_eq!(wallpaper_url("94x38z"), "https://wallhaven.cc/api/v1/w/94x38z");
}

#[test]
fn search_url_small_and_large_sizes() {
    let r = Resolution { width: 0, height: 4294967295 };
    assert_eq!(
        search_url(Some("sunset beach"), &r),
        "https://wallhaven.cc/api/v1/search?sorting=random&atleast=0x4294967295&q=sunset beach"
    );
    let r = Resolution { width: 1920, height: 1080 };
    assert_eq!(search_url(Some(""), &r), "https://wallhaven.cc/api/v1/search?sorting=random&atleast=1920x1080&q=");
}
