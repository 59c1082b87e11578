use filmilhoes::config::parse_size;
use filmilhoes::present::present;
use filmilhoes::sample::{pick, sample};
use filmilhoes::walk::{EntryInfo, FileCandidate, Walker};

fn dir(name: &str) -> EntryInfo {
    EntryInfo { name: name.to_string(), is_dir: true, len: None }
}

fn file(name: &str, len: u64) -> EntryInfo {
    EntryInfo { name: name.to_string(), is_dir: false, len: Some(len) }
}

fn unsized_file(name: &str) -> EntryInfo {
    EntryInfo { name: name.to_string(), is_dir: false, len: None }
}

/// Walks a tree given as a listing function of the path below the root.
fn run(exclude: &[&str], min_size: Option<u64>, list: &dyn Fn(&[String]) -> Vec<EntryInfo>) -> (Vec<FileCandidate>, Vec<Vec<String>>) {
    let mut w = Walker::new(exclude.iter().map(|s| s.to_string()).collect(), min_size);
    let mut listed = Vec::new();
    while let Some(d) = w.next_dir() {
        let entries = list(&d);
        listed.push(d);
        w.visit(&entries);
    }
    (w.into_candidates(), listed)
}

fn tree(path: &[String]) -> Vec<EntryInfo> {
    let p: Vec<&str> = path.iter().map(|s| s.as_str()).collect();
    match p.as_slice() {
        [] => vec![dir("a"), dir("b")],
        ["a"] => vec![file("big.txt", 5 * 1024 * 1024), file("small.txt", 1024)],
        ["b"] => vec![dir(".git")],
        ["b", ".git"] => vec![file("huge.bin", 1024 * 1024 * 1024)],
        _ => vec![],
    }
}

fn paths(c: &[FileCandidate]) -> Vec<String> {
    let mut v: Vec<String> = c.iter().map(|c| c.path.join("/")).collect();
    v.sort();
    v
}

#[test]
fn end_to_end_scenario() {
    let min = parse_size("1MB").ok().unwrap();
    let (found, listed) = run(&[".git"], Some(min), &tree);
    assert_eq!(paths(&found), vec!["a/big.txt".to_string()]);
    assert!(!listed.iter().any(|d| d.iter().any(|s| s == ".git")));
    let picked = sample(found, 5);
    assert_eq!(picked.len(), 1);
    let lines = present(&picked, &vec![None]);
    assert_eq!(lines, vec!["    5.00 MiB \u{2551} big.txt".to_string()]);
}

#[test]
fn no_candidate_under_an_excluded_name() {
    let deep = |p: &[String]| -> Vec<EntryInfo> {
        match p.len() {
            0 => vec![dir("x"), dir("keep"), file("top", 1)],
            1 => vec![dir("x"), file("f", 1), dir("y")],
            2 => vec![file("g", 1), dir("x")],
            _ => vec![file("h", 1)],
        }
    };
    let (found, _) = run(&["x"], None, &deep);
    assert_eq!(paths(&found), vec!["keep/f", "keep/y/g", "top"]);
    for c in &found {
        assert!(!c.path[..c.path.len() - 1].iter().any(|s| s == "x"));
    }
}

#[test]
fn without_exclusions_everything_is_found() {
    let (found, listed) = run(&[], None, &tree);
    assert_eq!(paths(&found), vec!["a/big.txt", "a/small.txt", "b/.git/huge.bin"]);
    assert_eq!(listed.len(), 4);
}

#[test]
fn size_threshold_is_inclusive() {
    let flat = |p: &[String]| -> Vec<EntryInfo> {
        if p.is_empty() {
            vec![file("under", 99), file("equal", 100), file("over", 101), unsized_file("unknown")]
        } else {
            vec![]
        }
    };
    let (found, _) = run(&[], Some(100), &flat);
    assert_eq!(paths(&found), vec!["equal", "over"]);
    for c in &found {
        assert!(c.len.unwrap() >= 100);
    }
    let (all, _) = run(&[], None, &flat);
    assert_eq!(all.len(), 4);
}

#[test]
fn an_excluded_file_name_is_still_a_leaf() {
    let flat = |p: &[String]| -> Vec<EntryInfo> {
        if p.is_empty() { vec![file(".git", 3)] } else { vec![] }
    };
    let (found, _) = run(&[".git"], None, &flat);
    assert_eq!(paths(&found), vec![".git"]);
}

#[test]
fn empty_root_gives_nothing() {
    let (found, listed) = run(&[], None, &|_: &[String]| Vec::new());
    assert!(found.is_empty());
    assert_eq!(listed, vec![Vec::<String>::new()]);
}

fn candidates(n: usize) -> Vec<FileCandidate> {
    (0..n).map(|i| FileCandidate { path: vec![format!("f{}", i)], len: Some(i as u64) }).collect()
}

#[test]
fn undersized_sample_keeps_everything() {
    let s = sample(candidates(3), 5);
    assert_eq!(paths(&s), vec!["f0", "f1", "f2"]);
    let s = sample(candidates(3), 3);
    assert_eq!(paths(&s), vec!["f0", "f1", "f2"]);
    assert!(sample(candidates(0), 2).is_empty());
}

#[test]
fn sample_is_distinct_and_bounded() {
    for _ in 0..50 {
        let s = sample(candidates(10), 4);
        assert_eq!(s.len(), 4);
        let mut p = paths(&s);
        p.dedup();
        assert_eq!(p.len(), 4);
    }
    assert!(sample(candidates(10), 0).is_empty());
}

#[test]
fn sample_coverage_is_near_uniform() {
    let runs = 20000;
    let mut counts = [0usize; 10];
    for _ in 0..runs {
        for c in sample(candidates(10), 3) {
            counts[c.len.unwrap() as usize] += 1;
        }
    }
    let expected = runs as f64 * 3.0 / 10.0;
    for c in counts.iter() {
        let ratio = *c as f64 / expected;
        assert!(ratio > 0.9 && ratio < 1.1, "ratio {}", ratio);
    }
}

#[test]
fn pick_follows_positions() {
    let c = candidates(5);
    let p = pick(&c, &vec![4, 0, 2]);
    let names: Vec<String> = p.iter().map(|c| c.path[0].clone()).collect();
    assert_eq!(names, vec!["f4", "f0", "f2"]);
}

#[test]
fn present_uses_known_then_looked_up_sizes() {
    let s = vec![
        FileCandidate { path: vec!["d".to_string(), "one".to_string()], len: Some(2048) },
        FileCandidate { path: vec!["two".to_string()], len: None },
        FileCandidate { path: vec!["three".to_string()], len: None },
    ];
    let lines = present(&s, &vec![Some(7), Some(1536), None]);
    assert_eq!(
        lines,
        vec![
            "    2.00 KiB \u{2551} one".to_string(),
            "    1.50 KiB \u{2551} two".to_string(),
            "    0.00   B \u{2551} three".to_string(),
        ]
    );
}
