use synth_sequencer::dag::kahn_order;
use synth_sequencer::ids::{NoteGraphId, NoteId, NoteModuleId};
use synth_sequencer::note::{Note, OrnamentPlacement};
use synth_sequencer::note_graph::{
    expansion_steps, latest_onset, step_lfo_index, EuclideanGenerator, NoteConnection, NoteGraph, NoteModuleKind,
};
use synth_sequencer::note_processor::{chain_insert_point, PitchClass, ScaleMask, ScaleQuantize};
use synth_sequencer::ornament::{seed_hits, OrnamentFigure};
use synth_sequencer::pitch::{Pitch, Velocity};
use synth_sequencer::time::{Duration, PatternTick};

fn id(n: u32) -> NoteModuleId {
    NoteModuleId::new(n)
}

fn pitch(m: u8) -> Pitch {
    Pitch::new(m).unwrap()
}

#[test]
fn euclidean_generator_emits_onset_pattern() {
    let mut g: NoteGraph<()> = NoteGraph::new(NoteGraphId::new(2), "euclid".to_string());
    g.try_insert_node(
        id(1),
        NoteModuleKind::Euclidean(EuclideanGenerator {
            steps: 8,
            pulses: 4,
            rotation: 0,
            step_len: Duration(100),
            pitch: pitch(60),
            velocity: Velocity::mf(),
        }),
        (),
    )
    .unwrap();
    // No source notes: a generator-headed spine starts from an empty stream.
    assert!(g.stream_head_is_generator());
    let mut baked: Vec<(u32, Pitch)> = Vec::new();
    for t in 0..800 {
        for step in expansion_steps(&g, None) {
            let node = g.nodes().iter().find(|n| n.id == step.node).unwrap();
            if let NoteModuleKind::Euclidean(e) = node.kind {
                if e.is_onset(PatternTick(t)) {
                    baked.push((t, e.pitch));
                }
            }
        }
    }
    // E(4,8) rotation 0 → onsets at steps 0,2,4,6 → ticks 0,200,400,600.
    let ticks: Vec<u32> = baked.iter().map(|(t, _)| *t).collect();
    assert_eq!(ticks, vec![0, 200, 400, 600]);
    assert!(baked.iter().all(|(_, p)| *p == pitch(60)));
}

// Spine: quantize, humanize, probability gate. Off the spine: a Euclidean
// node. Value source: an LFO wired into the probability gate's threshold.
fn plan_graph() -> NoteGraph<()> {
    let mut g: NoteGraph<()> = NoteGraph::new(NoteGraphId::new(4), "plan".to_string());
    let quantize = ScaleQuantize { root: PitchClass::new(0), mask: ScaleMask::major() };
    g.try_insert_node(id(1), NoteModuleKind::ScaleQuantize(quantize), ()).unwrap();
    g.try_insert_node(id(2), NoteModuleKind::Humanize, ()).unwrap();
    g.try_insert_node(id(3), NoteModuleKind::Euclidean(EuclideanGenerator::default_generator()), ()).unwrap();
    g.try_insert_node(id(4), NoteModuleKind::NoteLfo, ()).unwrap();
    g.try_insert_node(id(5), NoteModuleKind::ProbabilityGate, ()).unwrap();
    g.try_connect(NoteConnection::stream(id(1), id(2))).unwrap();
    g.try_connect(NoteConnection::stream(id(2), id(5))).unwrap();
    g.try_connect(NoteConnection::value(id(4), id(5), 0)).unwrap();
    g
}

fn plan_of(g: &NoteGraph<()>, tap: Option<NoteModuleId>) -> Vec<(u32, Option<usize>, Vec<u32>)> {
    expansion_steps(g, tap)
        .into_iter()
        .map(|s| (s.node.0, s.spine_pos, s.upstream.iter().map(|u| u.0).collect()))
        .collect()
}

#[test]
fn expansion_plan_runs_the_spine_and_value_sources() {
    let g = plan_graph();
    assert_eq!(g.processing_order(), &vec![id(1), id(2), id(3), id(4), id(5)]);
    assert_eq!(g.stream_spine(), &vec![id(1), id(2), id(5)]);
    // The loose generator (3) never runs; the LFO (4) runs without a spine
    // position; the humanizer reads the quantizer before it.
    assert_eq!(
        plan_of(&g, None),
        vec![(1, Some(0), vec![]), (2, Some(1), vec![1]), (4, None, vec![]), (5, Some(2), vec![])]
    );
}

#[test]
fn expansion_plan_stops_after_the_tap() {
    let g = plan_graph();
    assert_eq!(plan_of(&g, Some(id(2))), vec![(1, Some(0), vec![]), (2, Some(1), vec![1])]);
    // A tap that never runs leaves the whole plan.
    assert_eq!(plan_of(&g, Some(id(3))), plan_of(&g, None));
}

#[test]
fn seeding_picks_gated_onsets_and_ornament_hits() {
    let v = Velocity::mf();
    let notes = vec![
        Note::new(NoteId(1), PatternTick(0), pitch(60), v),
        Note::new(NoteId(2), PatternTick(0), pitch(62), v),
        Note::new(NoteId(3), PatternTick(480), pitch(64), v),
        Note::new(NoteId(4), PatternTick(960), pitch(67), v),
    ];
    let fig = OrnamentFigure { count: 3, spacing: Duration(30), placement: OrnamentPlacement::OnBeat };
    let raw = vec![0i64, 30, 60];
    let figures = vec![None, None, None, Some(fig)];
    let raws = vec![vec![], vec![], vec![], raw.clone()];
    let passes = vec![true, false, true, true];

    // At tick 0 only the first note sounds: the second is gated off.
    assert_eq!(seed_hits(&notes, &figures, &raws, PatternTick(0), &passes), vec![(0, None)]);
    assert_eq!(seed_hits(&notes, &figures, &raws, PatternTick(480), &passes), vec![(2, None)]);
    // An ornamented note sounds through its figure's hits, not as a plain onset.
    let first = fig.hit_at(960, 960, &raw);
    assert!(first.is_some());
    assert_eq!(seed_hits(&notes, &figures, &raws, PatternTick(960), &passes), vec![(3, first)]);
    let second = fig.hit_at(960, 990, &raw);
    assert!(second.is_some());
    assert_eq!(seed_hits(&notes, &figures, &raws, PatternTick(990), &passes), vec![(3, second)]);
    assert!(seed_hits(&notes, &figures, &raws, PatternTick(100), &passes).is_empty());
    // A gated-off ornamented note contributes nothing.
    let blocked = vec![true, true, true, false];
    assert!(seed_hits(&notes, &figures, &raws, PatternTick(960), &blocked).is_empty());
}

#[test]
fn rack_insertion_point_follows_same_stage_processors() {
    let stages = [0u8, 1, 1, 2, 4];
    assert_eq!(chain_insert_point(&stages, 1), 3);
    assert_eq!(chain_insert_point(&stages, 0), 1);
    assert_eq!(chain_insert_point(&stages, 3), 4);
    assert_eq!(chain_insert_point(&stages, 5), 5);
    assert_eq!(chain_insert_point(&[], 2), 0);
}

#[test]
fn kahn_order_takes_the_smallest_ready_id_first() {
    // 1 waits for 3; of the ready ids 2 and 3, 2 goes first.
    assert_eq!(kahn_order(&vec![1, 2, 3], &vec![(3, 1)]), Some(vec![2, 3, 1]));
    assert_eq!(kahn_order(&vec![1, 2], &vec![(1, 2), (2, 1)]), None);
}

#[test]
fn envelope_restarts_from_the_latest_onset_in_its_window() {
    let v = Velocity::mf();
    let notes = vec![
        Note::new(NoteId(1), PatternTick(0), pitch(60), v),
        Note::new(NoteId(2), PatternTick(400), pitch(62), v),
        Note::new(NoteId(3), PatternTick(300), pitch(64), v),
        Note::new(NoteId(4), PatternTick(900), pitch(65), v),
    ];
    assert_eq!(latest_onset(&notes, PatternTick(450), 480), Some(400));
    assert_eq!(latest_onset(&notes, PatternTick(350), 480), Some(300));
    // Inclusive at both ends of the window.
    assert_eq!(latest_onset(&notes, PatternTick(880), 480), Some(400));
    assert_eq!(latest_onset(&notes, PatternTick(881), 480), None);
    assert_eq!(latest_onset(&notes, PatternTick(900), 0), Some(900));
    assert_eq!(latest_onset(&[], PatternTick(10), 480), None);
}

#[test]
fn step_lfo_cycles_over_its_steps() {
    assert_eq!(step_lfo_index(PatternTick(0), Duration(240), 4), 0);
    assert_eq!(step_lfo_index(PatternTick(239), Duration(240), 4), 0);
    assert_eq!(step_lfo_index(PatternTick(240), Duration(240), 4), 1);
    assert_eq!(step_lfo_index(PatternTick(1000), Duration(240), 4), 0);
    assert_eq!(step_lfo_index(PatternTick(1200), Duration(240), 4), 1);
    // A zero step length freezes on the first step.
    assert_eq!(step_lfo_index(PatternTick(1200), Duration(0), 4), 0);
}
