use dirfill::config::{bind_config, Config, RawArgs};
use dirfill::generator::Generator;
use dirfill::report::{created_files_line, total_size_line};

fn cfg(target: u64, depth: u64, min: u64, max: u64) -> Config {
    Config {
        folder_path: "/tmp/run".to_string(),
        target_size: target,
        max_depth: depth,
        min_file_size: min,
        max_file_size: max,
    }
}

#[test]
fn fixed_size_run_creates_ten_files_at_depth_zero() {
    let mut g = Generator::new(cfg(10240, 0, 1024, 1024));
    let mut names: Vec<String> = Vec::new();
    while !g.done() {
        let p = g.plan();
        assert!(p.segments.is_empty());
        assert_eq!(p.size, 1024);
        let payload = g.payload(p.size as usize);
        assert_eq!(payload.len(), 1024);
        names.push(p.file_name.clone());
        g.commit(p.size);
    }
    assert_eq!(g.count, 10);
    assert_eq!(g.cumulative, 10240);
    for (i, name) in names.iter().enumerate() {
        assert_eq!(name, &format!("file_{}.txt", i));
    }
    assert_eq!(created_files_line(g.count), "Created files: 10");
}

#[test]
fn zero_target_finishes_with_no_files() {
    let g = Generator::new(cfg(0, 1, 1024, 2048));
    assert!(g.done());
    assert_eq!(g.count, 0);
    assert_eq!(g.cumulative, 0);
    assert_eq!(created_files_line(g.count), "Created files: 0");
}

#[test]
fn repaired_bounds_run_creates_three_files() {
    let args = RawArgs {
        folder_flag: Some("/tmp/t3".to_string()),
        folder_pos: None,
        size_flag: Some("5kib".to_string()),
        size_pos: None,
        depth: 1,
        min: "2kib".to_string(),
        max: "1kib".to_string(),
    };
    let (c, repaired) = bind_config(args).unwrap();
    assert!(repaired);
    let mut g = Generator::new(c);
    while !g.done() {
        let p = g.plan();
        assert_eq!(p.size, 2048);
        g.commit(p.size);
    }
    assert_eq!(g.count, 3);
    assert_eq!(g.cumulative, 6144);
}

#[test]
fn depth_is_bounded_and_segments_are_alphanumeric() {
    let mut g = Generator::new(cfg(3072, 2, 1024, 1024));
    while !g.done() {
        let p = g.plan();
        assert!(p.segments.len() <= 2);
        for seg in &p.segments {
            assert_eq!(seg.len(), 8);
            assert!(seg.chars().all(|c| c.is_ascii_alphanumeric()));
        }
        g.commit(p.size);
    }
    assert_eq!(g.count, 3);
    assert_eq!(g.cumulative, 3072);
}

#[test]
fn single_file_run_finishes() {
    let mut g = Generator::new(cfg(1024, 1, 1024, 1024));
    assert!(!g.done());
    let p = g.plan();
    g.commit(p.size);
    assert!(g.done());
    assert_eq!(g.count, 1);
}

#[test]
fn run_lands_between_target_and_target_plus_max() {
    let mut g = Generator::new(cfg(5000, 0, 10, 100));
    let mut total: u64 = 0;
    while !g.done() {
        let p = g.plan();
        assert!(10 <= p.size && p.size <= 100);
        total += p.size;
        g.commit(p.size);
    }
    assert!(5000 <= g.cumulative && g.cumulative < 5100);
    assert_eq!(total, g.cumulative);
}

#[test]
fn random_run_keeps_sizes_in_bounds_and_names_in_order() {
    let mut g = Generator::new(cfg(100000, 3, 10, 5000));
    let mut next_index: u64 = 0;
    while !g.done() {
        let p = g.plan();
        assert!(10 <= p.size && p.size <= 5000);
        assert!(p.segments.len() <= 3);
        assert_eq!(p.file_name, format!("file_{}.txt", next_index));
        next_index += 1;
        g.commit(p.size);
    }
    assert_eq!(g.count, next_index);
    assert!(g.cumulative >= 100000);
}

#[test]
fn summary_lines_render_exactly() {
    assert_eq!(total_size_line(0), "Total size: 0.00 GiB");
    assert_eq!(total_size_line(1073741824), "Total size: 1.00 GiB");
    assert_eq!(total_size_line(1610612736), "Total size: 1.50 GiB");
    assert_eq!(total_size_line(123456789), "Total size: 0.11 GiB");
    assert_eq!(dirfill::digits::u64_to_string(0), "0");
    assert_eq!(
        dirfill::digits::u64_to_string(u64::MAX),
        "18446744073709551615"
    );
}
