use akai_net::narrow::narrowed;
use akai_net::pipeline::{
    build_pipeline_info, calculate_layer_assignment, rank_order, ModelConfig, WorkerInfo,
    PROTOCOL_VERSION,
};
use akai_net::score::{nan, score_of, times_hundred_of};

fn worker(id: &str, has_gpu: bool, vram_gb: f32) -> WorkerInfo {
    WorkerInfo {
        id: id.to_string(),
        has_gpu,
        vram_gb: vram_gb.to_bits(),
        ..Default::default()
    }
}

fn ids(list: &[(String, usize, usize)]) -> Vec<&str> {
    list.iter().map(|a| a.0.as_str()).collect()
}

#[test]
fn test_layer_assignment_sorted_by_capacity() {
    let workers = vec![
        WorkerInfo {
            id: "pi".to_string(),
            name: "".to_string(),
            layer_offset: 0,
            num_layers: 0,
            vram_gb: 0.0f32.to_bits(),
            has_gpu: false,
            ..Default::default()
        },
        WorkerInfo {
            id: "desktop".to_string(),
            name: "".to_string(),
            layer_offset: 0,
            num_layers: 0,
            vram_gb: 16.0f32.to_bits(),
            has_gpu: true,
            ..Default::default()
        },
        WorkerInfo {
            id: "phone".to_string(),
            name: "".to_string(),
            layer_offset: 0,
            num_layers: 0,
            vram_gb: 4.0f32.to_bits(),
            has_gpu: false,
            ..Default::default()
        },
    ];
    let assignments = calculate_layer_assignment(&workers, 32);
    assert_eq!(assignments.len(), 3);
    assert_eq!(assignments[0].0, "pi");
    assert_eq!(assignments[1].0, "phone");
    assert_eq!(assignments[2].0, "desktop");
}

#[test]
fn shares_follow_each_other() {
    let workers = vec![
        worker("a", true, 24.0),
        worker("b", true, 8.0),
        worker("c", false, 0.0),
    ];
    let dealt = calculate_layer_assignment(&workers, 32);
    assert_eq!(
        dealt,
        vec![
            ("c".to_string(), 0, 11),
            ("b".to_string(), 11, 11),
            ("a".to_string(), 22, 10),
        ]
    );
}

#[test]
fn more_workers_than_layers() {
    let workers = vec![
        worker("a", false, 0.0),
        worker("b", false, 0.0),
        worker("c", false, 0.0),
    ];
    let dealt = calculate_layer_assignment(&workers, 2);
    assert_eq!(
        dealt,
        vec![
            ("a".to_string(), 0, 1),
            ("b".to_string(), 1, 1),
            ("c".to_string(), 2, 0),
        ]
    );
    let none = calculate_layer_assignment(&workers, 0);
    assert!(none.iter().all(|a| a.1 == 0 && a.2 == 0));
}

#[test]
fn largest_number_of_layers() {
    let workers = vec![worker("a", false, 0.0), worker("b", false, 0.0)];
    let dealt = calculate_layer_assignment(&workers, usize::MAX);
    let half = usize::MAX / 2;
    assert_eq!(dealt[0].2, half + 1);
    assert_eq!(dealt[1].1, half + 1);
    assert_eq!(dealt[1].2, half);
}

#[test]
fn equal_scores_keep_their_order() {
    let workers = vec![
        worker("x", true, 8.0),
        worker("y", false, 64.0),
        worker("z", true, 8.0),
        worker("w", false, 0.0),
    ];
    let dealt = calculate_layer_assignment(&workers, 4);
    assert_eq!(ids(&dealt), vec!["y", "w", "x", "z"]);
    assert_eq!(rank_order(&workers), vec![1, 3, 0, 2]);
}

#[test]
fn a_gpu_with_little_vram_scores_below_none() {
    let workers = vec![worker("cpu", false, 0.0), worker("tiny", true, 0.005)];
    assert_eq!(ids(&calculate_layer_assignment(&workers, 2)), vec!["tiny", "cpu"]);
    let workers = vec![worker("cpu", false, 0.0), worker("negative", true, -4.0)];
    assert_eq!(ids(&calculate_layer_assignment(&workers, 2)), vec!["negative", "cpu"]);
    let workers = vec![worker("huge", true, f32::INFINITY), worker("big", true, f32::MAX)];
    assert_eq!(ids(&calculate_layer_assignment(&workers, 2)), vec!["huge", "big"]);
}

#[test]
fn zero_and_negative_zero_are_equal() {
    let workers = vec![worker("p", true, 0.0), worker("n", true, -0.0)];
    assert_eq!(ids(&calculate_layer_assignment(&workers, 2)), vec!["p", "n"]);
    assert_eq!(score_of(true, 0.0f32.to_bits()), score_of(true, (-0.0f32).to_bits()));
}

#[test]
fn a_hundredfold_is_rounded_as_the_processor_does() {
    let edges: Vec<f32> = vec![
        0.0,
        -0.0,
        1.0,
        -1.0,
        0.01,
        0.005,
        16.0,
        23.999,
        f32::MIN_POSITIVE,
        f32::MAX,
        f32::MIN,
        f32::INFINITY,
        f32::NEG_INFINITY,
        f32::from_bits(1),
        f32::from_bits(0x007f_ffff),
        f32::from_bits(0x0001_4000),
        f32::from_bits(0x7c23_d70a),
        f32::from_bits(0x7c23_d70b),
        f32::from_bits(0x7c23_d709),
    ];
    for x in edges {
        assert_eq!(times_hundred_of(x.to_bits()), (x * 100.0).to_bits(), "{}", x);
    }
    let mut seed: u64 = 88172645463325252;
    for _ in 0..300_000 {
        seed ^= seed << 13;
        seed ^= seed >> 7;
        seed ^= seed << 17;
        let bits = (seed >> 16) as u32;
        let x = f32::from_bits(bits);
        assert_eq!(nan(bits), x.is_nan());
        if !x.is_nan() {
            assert_eq!(times_hundred_of(bits), (x * 100.0).to_bits(), "{:08x}", bits);
        }
    }
}

#[test]
fn doubles_are_narrowed_as_the_processor_does() {
    let edges: Vec<f64> = vec![
        0.0,
        -0.0,
        0.7,
        -0.7,
        1.0,
        2.0,
        0.1,
        1e-45,
        7e-46,
        7.006492321624085e-46,
        7.006492321624086e-46,
        2.1019476964872256e-45,
        1e-310,
        f64::MIN_POSITIVE,
        f64::MAX,
        f64::INFINITY,
        f64::NEG_INFINITY,
        f32::MAX as f64,
        3.4028235677973366e38,
        3.4028235677973362e38,
        f32::MIN_POSITIVE as f64,
        1.1754943157898258e-38,
        16777217.0,
        16777219.0,
    ];
    for x in edges {
        assert_eq!(narrowed(x.to_bits()), (x as f32).to_bits(), "{:e}", x);
    }
    let mut seed: u64 = 6364136223846793005;
    for i in 0..200_000u64 {
        seed ^= seed << 13;
        seed ^= seed >> 7;
        seed ^= seed << 17;
        let mut bits = seed;
        if i % 2 == 0 {
            let exponent = 1023 - 160 + seed % 300;
            bits = (seed & 0x800f_ffff_ffff_ffff) | (exponent << 52);
        }
        if i % 6 == 0 {
            bits &= 0xffff_ffff_f000_0000;
        }
        let x = f64::from_bits(bits);
        if x.is_nan() {
            assert!(f32::from_bits(narrowed(bits)).is_nan());
        } else {
            assert_eq!(narrowed(bits), (x as f32).to_bits(), "{:e}", x);
        }
    }
}

#[test]
fn scores_compare_as_the_numbers_do() {
    let mut seed: u64 = 2463534242;
    let mut before: f32 = 1.0;
    for _ in 0..100_000 {
        seed ^= seed << 13;
        seed ^= seed >> 7;
        seed ^= seed << 17;
        let x = f32::from_bits((seed >> 16) as u32);
        if x.is_nan() {
            continue;
        }
        let wanted = (before * 100.0).partial_cmp(&(x * 100.0)).unwrap();
        let got = score_of(true, before.to_bits()).cmp(&score_of(true, x.to_bits()));
        assert_eq!(wanted, got, "{} {}", before, x);
        let wanted = 1.0f32.partial_cmp(&(x * 100.0)).unwrap();
        let got = score_of(false, before.to_bits()).cmp(&score_of(true, x.to_bits()));
        assert_eq!(wanted, got, "{}", x);
        before = x;
    }
}

#[test]
fn neighbours_name_each_other() {
    let mut a = worker("a", true, 24.0);
    a.wg_ip = "10.8.0.2".to_string();
    a.rpc_port = 50052;
    a.layer_offset = 16;
    a.num_layers = 16;
    let mut b = worker("b", false, 0.0);
    b.wg_ip = "10.8.0.3".to_string();
    b.rpc_port = 50053;
    b.num_layers = 16;
    let info = build_pipeline_info(&[a, b], "m", "http://x", 32);
    assert_eq!(info.pipeline_id, "main");
    assert_eq!(info.model_name, "m");
    assert_eq!(info.model_url, "http://x");
    assert_eq!(info.num_layers, 32);
    assert_eq!(info.workers.len(), 2);
    let first = &info.workers[0];
    assert_eq!(first.worker_id, "b");
    assert!(first.is_first && !first.is_last);
    assert!(first.last_hop.is_none());
    let next = first.next_hop.as_ref().unwrap();
    assert_eq!((next.worker_id.as_str(), next.host.as_str(), next.port), ("a", "10.8.0.2", 50052));
    let last = &info.workers[1];
    assert!(last.is_last && !last.is_first);
    assert_eq!((last.layer_offset, last.num_layers), (16, 16));
    assert!(last.next_hop.is_none());
    let before = last.last_hop.as_ref().unwrap();
    assert_eq!((before.worker_id.as_str(), before.host.as_str(), before.port), ("b", "10.8.0.3", 50053));
}

#[test]
fn a_single_worker_is_first_and_last() {
    let info = build_pipeline_info(&[worker("a", true, f32::NAN)], "m", "", 1);
    assert!(info.workers[0].is_first && info.workers[0].is_last);
    assert!(build_pipeline_info(&[], "m", "", 1).workers.is_empty());
}

#[test]
fn the_usual_model() {
    let m = ModelConfig::default();
    assert_eq!(m.name, "unknown");
    assert_eq!(
        (m.num_layers, m.hidden_size, m.num_heads, m.vocab_size),
        (32, 4096, 32, 32000)
    );
    assert_eq!(PROTOCOL_VERSION, "1.0");
}
