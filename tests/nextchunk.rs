use diff::nextchunk::{StreamNextChunk, WindowConfig};
use std::cmp::{max, min};
use std::time::{Duration, Instant};

#[test]
fn test_stream_next_chunk() {
    let original_a = vec![10, 20, 30, 40, 50, 60, 70, 80, 90, 100];
    let mut current_b = Vec::new();
    let chunk_size = 3;

    let streamer = StreamNextChunk::new(&original_a);

    let next = streamer.next_chunk(&current_b, chunk_size);
    assert_eq!(next, &[10, 20, 30]);
    println!("B: {:?}, Next A chunk: {:?}", current_b, next);
    current_b.extend_from_slice(next);

    let next = streamer.next_chunk(&current_b, chunk_size);
    assert_eq!(next, &[40, 50, 60]);
    println!("B: {:?}, Next A chunk: {:?}", current_b, next);
    current_b.extend_from_slice(next);

    let next = streamer.next_chunk(&current_b, chunk_size);
    assert_eq!(next, &[70, 80, 90]);
    println!("B: {:?}, Next A chunk: {:?}", current_b, next);
    current_b.extend_from_slice(next);

    let next = streamer.next_chunk(&current_b, chunk_size);
    assert_eq!(next, &[100]);
    println!("B: {:?}, Next A chunk: {:?}", current_b, next);
    current_b.extend_from_slice(next);

    let next = streamer.next_chunk(&current_b, chunk_size);
    assert_eq!(next, &[] as &[i32]);
    println!("B: {:?}, Next A chunk: {:?}", current_b, next);

    let original_a2 = vec![1, 2, 3, 4, 5, 6];
    let streamer2 = StreamNextChunk::new(&original_a2);
    let current_b2 = vec![1, 2, 99];
    let next = streamer2.next_chunk(&current_b2, chunk_size);
    assert_eq!(next, &[] as &[i32]);
    println!("B2: {:?}, Next A chunk: {:?}", current_b2, next);

    let original_a3 = vec![1, 2, 3];
    let streamer3 = StreamNextChunk::new(&original_a3);
    let current_b3 = vec![];
    let next = streamer3.next_chunk(&current_b3, 2);
    assert_eq!(next, &[1, 2]);
    println!("B3: {:?}, Next A chunk: {:?}", current_b3, next);

    let original_a4: Vec<i32> = vec![];
    let streamer4 = StreamNextChunk::new(&original_a4);
    let current_b4 = vec![1, 2];
    let next = streamer4.next_chunk(&current_b4, 2);
    assert_eq!(next, &[] as &[i32]);
    println!("B4: {:?}, Next A chunk: {:?}", current_b4, next);

    let original_a5 = vec![10, 20];
    let streamer5 = StreamNextChunk::new(&original_a5);
    let current_b5: Vec<i32> = vec![];
    let next = streamer5.next_chunk(&current_b5, 3);
    assert_eq!(next, &[10, 20]);
    println!("B5: {:?}, Next A chunk: {:?}", current_b5, next);
}

#[test]
fn test_real_case1_simulation() {
    let input_tokens: Vec<i32> = (1..=1000).collect();
    let mut output_tokens: Vec<i32> = (1..=500).collect();
    output_tokens[10] = 999;
    output_tokens[100] = 888;
    output_tokens.extend(501..=1000);
    output_tokens[600] = 777;

    let mut current_idx: usize = 0;
    let spec_num_tokens: usize = 80;
    let mut iter: u32 = 0;
    let mut total_accepted: usize = 0;
    let mut first_token_duration: Option<Duration> = None;

    let streamer = StreamNextChunk::new(&input_tokens);

    println!("Input token count: {}", input_tokens.len());
    println!("Output token count: {}", output_tokens.len());
    println!("Chunk size: {}", spec_num_tokens);

    let start_time = Instant::now();

    while current_idx < output_tokens.len() {
        iter += 1;
        let current_b_slice = &output_tokens[0..current_idx];
        let predict_chunk = streamer.next_chunk(current_b_slice, spec_num_tokens);

        if first_token_duration.is_none() {
            first_token_duration = Some(start_time.elapsed());
        }

        if predict_chunk.is_empty() && current_idx < output_tokens.len() {
            println!("Iteration {}: Prediction empty, advancing by 1.", iter);
            current_idx += 1;
            continue;
        } else if predict_chunk.is_empty() {
            println!("Iteration {}: Prediction empty, loop should terminate.", iter);
            break;
        }

        let actual_chunk_end = min(current_idx + predict_chunk.len(), output_tokens.len());
        let actual_chunk = &output_tokens[current_idx..actual_chunk_end];

        let accepted = predict_chunk
            .iter()
            .zip(actual_chunk.iter())
            .take_while(|(predicted, actual)| predicted == actual)
            .count();

        println!(
            "Iteration {}: Predicted len {}, Accepted: {}",
            iter,
            predict_chunk.len(),
            accepted
        );

        let advance_by = max(accepted, 1);
        current_idx += advance_by;
        total_accepted += accepted;
    }

    let total_duration = start_time.elapsed();

    println!("\n--- Simulation Summary ---");
    println!("Total Iterations: {}", iter);
    println!("Total Accepted Tokens: {} (out of {})", total_accepted, output_tokens.len());
    if let Some(ftd) = first_token_duration {
        println!("First Prediction Time: {:.3} ms", ftd.as_secs_f64() * 1000.0);
    } else {
        println!("First Prediction Time: N/A (no predictions made)");
    }
    println!("Total Simulation Time: {:.3} ms", total_duration.as_secs_f64() * 1000.0);
}

#[test]
fn cold_start_returns_reference_head() {
    let reference = vec![5, 6, 7, 8];
    let streamer = StreamNextChunk::new(&reference);
    assert_eq!(streamer.next_chunk(&[], 2), &[5, 6]);
    assert_eq!(streamer.next_chunk(&[], 4), &[5, 6, 7, 8]);
    assert_eq!(streamer.next_chunk(&[], 9), &[5, 6, 7, 8]);
}

#[test]
fn empty_reference_predicts_nothing() {
    let streamer = StreamNextChunk::new(&[]);
    assert_eq!(streamer.next_chunk(&[], 3), &[] as &[i32]);
    assert_eq!(streamer.next_chunk(&[1, 2, 3], 3), &[] as &[i32]);
    assert_eq!(streamer.next_chunk(&[1], 0), &[] as &[i32]);
}

#[test]
fn zero_chunk_size_predicts_nothing() {
    let streamer = StreamNextChunk::new(&[1, 2, 3]);
    assert_eq!(streamer.next_chunk(&[], 0), &[] as &[i32]);
    assert_eq!(streamer.next_chunk(&[1], 0), &[] as &[i32]);
}

#[test]
fn appending_predictions_converges_to_reference() {
    let reference: Vec<i32> = (1..=50).collect();
    let chunk_size = 7;
    let streamer = StreamNextChunk::new(&reference);
    let mut observed: Vec<i32> = Vec::new();
    let mut rounds = 0;
    loop {
        let next = streamer.next_chunk(&observed, chunk_size);
        if next.is_empty() {
            break;
        }
        observed.extend_from_slice(next);
        rounds += 1;
        assert!(rounds <= 8);
    }
    assert_eq!(observed, reference);
    assert_eq!(rounds, 8);
    assert_eq!(streamer.next_chunk(&reference, chunk_size), &[] as &[i32]);
}

#[test]
fn unmatched_tail_predicts_nothing() {
    let streamer = StreamNextChunk::new(&[1, 2, 3, 4, 5, 6]);
    assert_eq!(streamer.next_chunk(&[1, 2, 99], 3), &[] as &[i32]);
    assert_eq!(streamer.next_chunk(&[1, 2, 3], 3), &[4, 5, 6]);
}

#[test]
fn resumes_after_inserted_token() {
    let streamer = StreamNextChunk::new(&[1, 2, 3, 4, 5, 6, 7]);
    assert_eq!(streamer.next_chunk(&[1, 2, 42, 3, 4], 2), &[5, 6]);
}

#[test]
fn example_scenarios() {
    let reference = vec![10, 20, 30, 40, 50, 60, 70, 80, 90, 100];
    let streamer = StreamNextChunk::new(&reference);
    assert_eq!(streamer.next_chunk(&[], 3), &[10, 20, 30]);
    assert_eq!(streamer.next_chunk(&[10, 20, 30], 3), &[40, 50, 60]);
    assert_eq!(streamer.next_chunk(&reference[..9], 3), &[100]);
    assert_eq!(streamer.next_chunk(&reference, 3), &[] as &[i32]);
}

#[test]
fn default_window_configuration() {
    assert_eq!(
        WindowConfig::default_for(0),
        WindowConfig { window_size: 0, min_window_threshold: 100, a_window_factor: 3 }
    );
    assert_eq!(WindowConfig::default_for(10).window_size, 1);
    assert_eq!(WindowConfig::default_for(29).window_size, 1);
    assert_eq!(WindowConfig::default_for(30).window_size, 2);
    assert_eq!(WindowConfig::default_for(3000).window_size, 200);
    let streamer = StreamNextChunk::new(&[1, 2, 3]);
    assert_eq!(streamer.config(), WindowConfig::default_for(3));
    assert_eq!(streamer.reference(), &[1, 2, 3]);
}

#[test]
fn windowing_activation_boundary() {
    let cfg = WindowConfig { window_size: 200, min_window_threshold: 100, a_window_factor: 3 };
    assert!(cfg.is_active_for(200));
    assert!(cfg.is_active_for(2500));
    assert!(!cfg.is_active_for(199));
    assert!(!cfg.is_active_for(0));
    let below = WindowConfig { window_size: 50, min_window_threshold: 100, a_window_factor: 3 };
    assert!(!below.is_active_for(50));
    assert!(!below.is_active_for(100_000));
}

#[test]
fn windowed_prediction_uses_global_offset() {
    let reference: Vec<i32> = (1..=3000).collect();
    let streamer = StreamNextChunk::new(&reference);
    assert_eq!(streamer.config().window_size, 200);
    assert!(streamer.config().is_active_for(2500));
    let observed: Vec<i32> = (1..=2500).collect();
    assert_eq!(streamer.next_chunk(&observed, 4), &[2501, 2502, 2503, 2504]);
}

#[test]
fn windowed_miss_predicts_nothing() {
    let reference: Vec<i32> = (1..=3000).collect();
    let streamer = StreamNextChunk::new(&reference);
    let observed: Vec<i32> = (10_001..=10_300).collect();
    assert_eq!(streamer.next_chunk(&observed, 4), &[] as &[i32]);
}

#[test]
fn unwindowed_miss_predicts_from_start() {
    let streamer = StreamNextChunk::new(&[1, 2, 3, 4]);
    assert_eq!(streamer.next_chunk(&[7, 8, 9], 2), &[1, 2]);
}

#[test]
fn small_window_below_threshold_aligns_whole_sequences() {
    let reference: Vec<i32> = (1..=40).collect();
    let cfg = WindowConfig { window_size: 5, min_window_threshold: 100, a_window_factor: 3 };
    let streamer = StreamNextChunk::with_config(&reference, cfg);
    assert_eq!(streamer.config(), cfg);
    let observed: Vec<i32> = (1..=30).collect();
    assert_eq!(streamer.next_chunk(&observed, 3), &[31, 32, 33]);
}

#[test]
fn forced_small_window_trims_and_stays_global() {
    let reference: Vec<i32> = (1..=40).collect();
    let cfg = WindowConfig { window_size: 5, min_window_threshold: 5, a_window_factor: 3 };
    let streamer = StreamNextChunk::with_config(&reference, cfg);
    let observed: Vec<i32> = (1..=30).collect();
    assert_eq!(streamer.next_chunk(&observed, 3), &[31, 32, 33]);
}
