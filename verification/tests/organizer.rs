use file_organizer::classify::{AgeBucket, Category};
use file_organizer::hashing::hash_content;
use file_organizer::organizer::{
    begin_pass, default_worker_count, destination_segments, is_hidden_file, plan_pass,
    should_move, visible_entries, Decision, HashResult, Pass,
};

const DAY: i64 = 86400;
const NOW: i64 = 1_700_000_000;

fn result(digest: &str, name: &str, modified_secs: i64) -> HashResult {
    HashResult {
        digest: digest.to_string(),
        name: name.to_string(),
        modified_secs,
    }
}

#[test]
fn hidden_names_are_recognized() {
    assert!(is_hidden_file(".hidden"));
    assert!(is_hidden_file("."));
    assert!(is_hidden_file(".config.yaml"));
    assert!(!is_hidden_file("visible.txt"));
    assert!(!is_hidden_file("dot.in.the.middle"));
    assert!(!is_hidden_file(""));
}

#[test]
fn hidden_entries_are_dropped_by_the_scan() {
    let names = vec![
        ".hidden".to_string(),
        "a.jpg".to_string(),
        ".another".to_string(),
        "b.txt".to_string(),
    ];
    let visible = visible_entries(&names);
    assert_eq!(visible, vec!["a.jpg".to_string(), "b.txt".to_string()]);
}

#[test]
fn an_empty_directory_yields_an_empty_plan() {
    assert_eq!(visible_entries(&Vec::new()), Vec::<String>::new());
    assert_eq!(plan_pass(NOW, &Vec::new()), Vec::new());
}

#[test]
fn duplicate_resolution_keeps_exactly_one_copy() {
    let d = hash_content(b"same bytes");
    let results = vec![
        result(&d, "one.jpg", NOW),
        result(&d, "two.jpg", NOW),
        result(&d, "three.jpg", NOW),
    ];
    let plan = plan_pass(NOW, &results);
    assert_eq!(plan.len(), 3);
    assert_eq!(
        plan[0],
        Decision::Place {
            category: Category::Images,
            bucket: None
        }
    );
    assert_eq!(plan[1], Decision::Duplicate);
    assert_eq!(plan[2], Decision::Duplicate);
}

#[test]
fn streaming_pass_marks_later_arrivals_as_duplicates() {
    let d = hash_content(b"payload");
    let other = hash_content(b"different payload");
    let mut pass = Pass::new(NOW);
    let first = pass.process(d.clone(), "first.pdf", NOW);
    assert_eq!(
        first,
        Decision::Place {
            category: Category::Documents,
            bucket: None
        }
    );
    let again = pass.process(d.clone(), "copy.pdf", NOW);
    assert_eq!(again, Decision::Duplicate);
    let fresh = pass.process(other, "fresh.zip", NOW);
    assert_eq!(
        fresh,
        Decision::Place {
            category: Category::Archives,
            bucket: None
        }
    );
}

#[test]
fn end_to_end_pass_over_a_small_directory() {
    // Directory model: a.jpg, b.jpg (byte-identical to a.jpg), c.txt modified
    // 45 days ago, and .hidden.
    let names = vec![
        "a.jpg".to_string(),
        "b.jpg".to_string(),
        "c.txt".to_string(),
        ".hidden".to_string(),
    ];
    let visible = visible_entries(&names);
    assert_eq!(
        visible,
        vec!["a.jpg".to_string(), "b.jpg".to_string(), "c.txt".to_string()]
    );

    let image_digest = hash_content(b"image bytes");
    let text_digest = hash_content(b"text bytes");
    let results = vec![
        result(&image_digest, "a.jpg", NOW),
        result(&image_digest, "b.jpg", NOW),
        result(&text_digest, "c.txt", NOW - 45 * DAY),
    ];
    let plan = plan_pass(NOW, &results);

    assert_eq!(
        plan[0],
        Decision::Place {
            category: Category::Images,
            bucket: None
        }
    );
    assert_eq!(plan[1], Decision::Duplicate);
    assert_eq!(
        plan[2],
        Decision::Place {
            category: Category::Documents,
            bucket: Some(AgeBucket::ThirtyToFiftyNineDays)
        }
    );

    assert_eq!(destination_segments(&plan[0]), vec!["images".to_string()]);
    assert_eq!(destination_segments(&plan[1]), vec!["duplicates".to_string()]);
    assert_eq!(
        destination_segments(&plan[2]),
        vec!["documents".to_string(), "30_to_59_days_old".to_string()]
    );
}

#[test]
fn destination_of_a_fresh_file_without_age_bucket() {
    let d = Decision::Place {
        category: Category::Others,
        bucket: None,
    };
    assert_eq!(destination_segments(&d), vec!["others".to_string()]);
    let d = Decision::Place {
        category: Category::Videos,
        bucket: Some(AgeBucket::SixtyDaysOrOlder),
    };
    assert_eq!(
        destination_segments(&d),
        vec!["videos".to_string(), "60_days_or_older".to_string()]
    );
}

#[test]
fn occupied_destinations_are_never_overwritten() {
    assert!(!should_move(true));
    assert!(should_move(false));
}

#[test]
fn a_wall_clock_pass_still_places_the_first_arrival() {
    let mut pass = begin_pass();
    let d = pass.process(hash_content(b"anything"), "file.gif", NOW);
    assert!(matches!(
        d,
        Decision::Place {
            category: Category::Gifs,
            ..
        }
    ));
}

#[test]
fn the_default_pool_size_is_at_least_one() {
    assert!(default_worker_count() >= 1);
}
