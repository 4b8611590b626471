use transecho::wsola::{WsolaState, WsolaStep, OVERLAP_SIZE, SEARCH_RADIUS, SYNTHESIS_HOP};

fn sine(freq: f32, sample_rate: f32, samples: usize) -> Vec<f32> {
    (0..samples)
        .map(|i| (2.0 * std::f32::consts::PI * freq * i as f32 / sample_rate).sin())
        .collect()
}

fn normalized_correlation(a: &[f32], b: &[f32]) -> f32 {
    let mut dot = 0.0f32;
    let mut energy_a = 0.0f32;
    let mut energy_b = 0.0f32;
    for (&x, &y) in a.iter().zip(b.iter()) {
        dot += x * y;
        energy_a += x * x;
        energy_b += y * y;
    }
    if energy_a < 1e-9 || energy_b < 1e-9 {
        return dot;
    }
    dot / (energy_a.sqrt() * energy_b.sqrt())
}

/// Runs every frame the state can take, scoring candidates by correlation with a
/// bias towards the nominal position and cross-fading linearly.
fn consume(state: &mut WsolaState<f32>) {
    loop {
        match state.next_step() {
            WsolaStep::NeedInput => return,
            WsolaStep::Start => state.start(),
            WsolaStep::Search { min_start, max_start, center } => {
                let reference = state.reference().to_vec();
                let mut best = min_start;
                let mut best_score = f32::NEG_INFINITY;
                for start in min_start..=max_start {
                    let c = normalized_correlation(&reference, state.candidate(start));
                    let distance = (start as isize - center as isize).unsigned_abs() as f32;
                    let score = c - distance / SEARCH_RADIUS as f32 * 0.20;
                    if score > best_score {
                        best_score = score;
                        best = start;
                    }
                }
                let head = state.candidate(best).to_vec();
                let blended: Vec<f32> = (0..OVERLAP_SIZE)
                    .map(|i| {
                        let fade_in = i as f32 / OVERLAP_SIZE as f32;
                        reference[i] * (1.0 - fade_in) + head[i] * fade_in
                    })
                    .collect();
                state.commit(best, &blended);
            }
        }
    }
}

#[test]
fn time_stretch_wsola_shortens_audio_when_speeding_up() {
    let speed: f32 = 1.2;
    let hop = ((SYNTHESIS_HOP as f32) * speed).round() as usize;
    let mut state: WsolaState<f32> = WsolaState::new(hop);
    let input = sine(440.0, 24_000.0, 24_000);
    let mut out = Vec::new();

    for chunk in input.chunks(480) {
        state.push_input(chunk);
        consume(&mut state);
        out.extend(state.drain_stable());
    }
    out.extend(state.drain_stable());
    out.extend(state.flush());

    assert!(!out.is_empty());
    assert!(out.len() < input.len());
    assert!(out.len() > (input.len() as f32 * 0.75) as usize);
}

#[test]
fn wsola_output_grows_by_synthesis_hop_per_frame() {
    let mut state: WsolaState<f32> = WsolaState::new(SYNTHESIS_HOP);
    let input = sine(440.0, 24_000.0, 4_800);
    state.push_input(&input);
    consume(&mut state);
    // each frame after the first adds the synthesis hop to the output
    let produced = state.tail_len();
    assert_eq!((produced - 480) % SYNTHESIS_HOP, 0);
    assert!(produced > 480);
}

/// Feeds `input` in chunks of 480, then flushes; returns the total output length.
fn stretch_total(input: &[f32]) -> usize {
    let mut state: WsolaState<f32> = WsolaState::new(432);
    let mut total = 0;
    for chunk in input.chunks(480) {
        state.push_input(chunk);
        consume(&mut state);
        total += state.drain_stable().len();
    }
    total += state.drain_stable().len();
    total += state.flush().len();
    total
}

#[test]
fn wsola_total_output_is_frame_plus_hops() {
    assert_eq!(stretch_total(&sine(440.0, 24_000.0, 479)), 0);
    for n in [480usize, 1000, 5000, 24_000] {
        let t = stretch_total(&sine(440.0, 24_000.0, n));
        assert!(t >= 480);
        assert_eq!((t - 480) % SYNTHESIS_HOP, 0);
    }
}
