use job_runner::resources::{resource_route, sort_resources, ResourceEntry};

#[test]
fn exercise_paths_route_to_the_exercises_bundle() {
    let (folder, rel) = resource_route("rustlings/intro/ex1.md");
    assert_eq!(folder, "rustlings");
    assert_eq!(rel, "intro/ex1.md");
}

#[test]
fn bare_prefix_routes_with_empty_remainder() {
    let (folder, rel) = resource_route("rustlings/");
    assert_eq!(folder, "rustlings");
    assert_eq!(rel, "");
}

#[test]
fn other_paths_route_to_the_content_bundle_unchanged() {
    let (folder, rel) = resource_route("lessons.json");
    assert_eq!(folder, "content");
    assert_eq!(rel, "lessons.json");

    // A near miss of the prefix is content, not exercises.
    let (folder, rel) = resource_route("rustling/ex1.md");
    assert_eq!(folder, "content");
    assert_eq!(rel, "rustling/ex1.md");

    let (folder, rel) = resource_route("rustlings");
    assert_eq!(folder, "content");
    assert_eq!(rel, "rustlings");

    let (folder, rel) = resource_route("");
    assert_eq!(folder, "content");
    assert_eq!(rel, "");
}

fn entry(name: &str, is_dir: bool) -> ResourceEntry {
    ResourceEntry { name: name.to_string(), is_dir }
}

#[test]
fn listing_is_sorted_by_name() {
    let entries = vec![
        entry("zeta.md", false),
        entry("alpha", true),
        entry("beta.md", false),
    ];
    let sorted = sort_resources(entries);
    let names: Vec<&str> = sorted.iter().map(|e| e.name.as_str()).collect();
    assert_eq!(names, vec!["alpha", "beta.md", "zeta.md"]);
    assert!(sorted[0].is_dir);
    assert!(!sorted[2].is_dir);
}

#[test]
fn sorting_keeps_every_entry_including_equal_names() {
    let entries = vec![
        entry("dup", false),
        entry("a", false),
        entry("dup", true),
    ];
    let sorted = sort_resources(entries);
    assert_eq!(sorted.len(), 3);
    assert_eq!(sorted[0].name, "a");
    assert_eq!(sorted[1].name, "dup");
    assert_eq!(sorted[2].name, "dup");
}

#[test]
fn empty_listing_sorts_to_empty() {
    let sorted = sort_resources(Vec::new());
    assert!(sorted.is_empty());
}
