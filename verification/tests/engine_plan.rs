use meridian::engine::{plan_hybrid, Entity, FeatureFlags, HybridPlan, StageRegistry};

#[test]
fn full_tick_runs_every_stage_after_its_dependencies() {
    let mut reg = StageRegistry::new();
    let physics = reg.add_stage("physics", &[]);
    let audio = reg.add_stage("audio", &[]);
    let render = reg.add_stage("render", &[physics, audio]);
    assert_eq!(reg.len(), 3);
    assert_eq!(reg.name(render), "render");
    let plan = reg.plan_all();
    assert_eq!(plan.len(), 3);
    assert_eq!(plan[0].stage, physics);
    assert!(plan[0].after.is_empty());
    assert_eq!(plan[2].stage, render);
    assert_eq!(plan[2].after, vec![0, 1]);
}

#[test]
fn partial_tick_skips_dependencies_left_out() {
    let mut reg = StageRegistry::new();
    let physics = reg.add_stage("physics", &[]);
    let render = reg.add_stage("render", &[physics]);
    let only_render = reg.plan(&[render]);
    assert_eq!(only_render.len(), 1);
    assert!(only_render[0].after.is_empty());
    let both = reg.plan(&[physics, physics, render]);
    assert_eq!(both[2].after, vec![1]);
    assert_eq!(render.index(), 1);
}

#[test]
fn hybrid_split_ranges() {
    assert_eq!(plan_hybrid(0, 0), HybridPlan::Nothing);
    assert_eq!(plan_hybrid(10, 0), HybridPlan::CpuOnly { end: 10 });
    assert_eq!(plan_hybrid(10, 10), HybridPlan::GpuOnly { end: 10 });
    assert_eq!(plan_hybrid(10, 4), HybridPlan::Both { split: 6, end: 10 });
}

#[test]
fn plain_engine_values() {
    let e = Entity { index: 3, generation: 1 };
    assert_eq!(e, Entity { index: 3, generation: 1 });
    assert_eq!(Entity::default(), Entity { index: 0, generation: 0 });
    assert_eq!(FeatureFlags::default(), FeatureFlags { simd128: false, simd256: false });
}

#[test]
fn tick_only_runs_exactly_the_selected_stages() {
    let mut reg = StageRegistry::new();
    let physics_id = reg.add_stage("physics", &[]);
    let render_id = reg.add_stage("render", &[physics_id]);
    let mut physics_runs = 0;
    let mut render_runs = 0;
    let ticks = [vec![physics_id], vec![physics_id], vec![physics_id], vec![render_id]];
    for ids in &ticks {
        for job in reg.plan(ids) {
            if job.stage == physics_id {
                physics_runs += 1;
            }
            if job.stage == render_id {
                render_runs += 1;
            }
        }
    }
    assert_eq!(physics_runs, 3);
    assert_eq!(render_runs, 1);
}
