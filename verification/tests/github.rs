use fleet_top_core::github::chunk;
use fleet_top_core::target::Target;
use fleet_top_core::github_slug::GithubSlug;

fn targets(count: usize) -> Vec<Target> {
    (0_usize..count)
        .map(|index| {
            let slug = GithubSlug::new("example-org", "alpha").expect("作れるはず");
            Target::new(index, slug)
        })
        .collect()
}

#[test]
fn seven_targets_become_three_chunks() {
    let found = chunk(&targets(7));
    let sizes: Vec<usize> = found.iter().map(Vec::len).collect();
    assert_eq!(sizes, [3_usize, 3_usize, 1_usize]);
}

#[test]
fn no_target_means_no_request() {
    assert!(chunk(&targets(0)).is_empty());
}

#[test]
fn a_chunk_keeps_the_row_it_came_from() {
    let found = chunk(&targets(4));
    let last = found.last().and_then(|chunk| chunk.first());
    assert_eq!(last.map(Target::index), Some(3_usize));
}
