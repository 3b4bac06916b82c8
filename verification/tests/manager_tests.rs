use corsair_control::color::{Color, ColorOp};
use corsair_control::corsair::CorsairLighting;
use corsair_control::device::Fan;
use corsair_control::effect::Effect;
use corsair_control::manager::ProfileManager;
use corsair_control::profile::{
    ColorProfile, Config, FanConfig, FanProfile, Indices, StripConfig, Trigger,
};

#[test]
fn range_indices_flatten_to_consecutive_list() {
    let mut ix = Indices::Range(2, 5);
    ix.initialize();
    assert_eq!(*ix.indices(), vec![2, 3, 4]);
}

#[test]
fn ranges_indices_flatten_in_order() {
    let mut ix = Indices::Ranges(vec![(0, 2), (5, 7)]);
    ix.initialize();
    assert_eq!(*ix.indices(), vec![0, 1, 5, 6]);
}

#[test]
fn specific_indices_stay_as_given() {
    let mut ix = Indices::Specific(vec![9, 1, 1]);
    ix.initialize();
    assert_eq!(*ix.indices(), vec![9, 1, 1]);
}

#[test]
fn triggers_evaluate_against_the_snapshot() {
    let probes = vec![Some(5000), None];
    assert!(Trigger::SensorAbove { sensor: 0, temperature: 4000 }.check(&probes));
    assert!(!Trigger::SensorAbove { sensor: 0, temperature: 5000 }.check(&probes));
    assert!(Trigger::SensorBelow { sensor: 0, temperature: 6000 }.check(&probes));
    // a probe without a reading never fires
    assert!(!Trigger::SensorAbove { sensor: 1, temperature: 0 }.check(&probes));
    // an out-of-range sensor never fires
    assert!(!Trigger::SensorBelow { sensor: 7, temperature: 9000 }.check(&probes));
    // the process trigger is a stub and never fires
    assert!(!Trigger::ProcessRunning { name: "anything".to_string() }.check(&probes));
}

fn plain_profile(name: &str, triggers: Vec<Trigger>, transient: bool) -> ColorProfile {
    ColorProfile { name: name.to_string(), triggers, transient, strip_profiles: vec![] }
}

fn base_config(color_profiles: Vec<ColorProfile>) -> Config {
    Config {
        color_profiles,
        fan_profiles: vec![FanProfile {
            name: "default fans".to_string(),
            triggers: vec![],
            fans: vec![],
        }],
    }
}

#[test]
fn later_matching_profile_wins_the_tie_break() {
    let hot = Trigger::SensorAbove { sensor: 0, temperature: 4000 };
    let config = base_config(vec![
        plain_profile("first", vec![hot.clone()], false),
        plain_profile("second", vec![hot.clone()], false),
        plain_profile("third", vec![], false),
    ]);
    let mut mgr = ProfileManager::new(vec![], config, 0);
    mgr.probes = vec![Some(5000)];
    let acts = mgr.update(30);
    assert_eq!(acts.color_profile, 1);
    assert!(acts.color_changed);
    assert_eq!(mgr.color_profile_current, Some(1));
}

#[test]
fn transient_profile_never_becomes_current() {
    let always = Trigger::SensorAbove { sensor: 0, temperature: 0 };
    let config = base_config(vec![
        plain_profile("base", vec![], false),
        plain_profile("overlay", vec![always.clone()], true),
    ]);
    let mut mgr = ProfileManager::new(vec![], config, 0);
    mgr.probes = vec![Some(5000)];
    let first = mgr.update(30);
    assert_eq!(first.color_profile, 0);
    assert!(first.color_changed); // first tick activates the default profile
    let second = mgr.update(60);
    // the overlay keeps firing, yet the current profile and the change flag
    // (what would be logged) are untouched
    assert_eq!(second.color_profile, 0);
    assert!(!second.color_changed);
    assert_eq!(mgr.color_profile_current, Some(0));
}

#[test]
fn firing_transient_profile_paints_as_an_overlay() {
    let always = Trigger::SensorAbove { sensor: 0, temperature: 0 };
    let config = Config {
        color_profiles: vec![
            plain_profile("base", vec![], false),
            ColorProfile {
                name: "alert".to_string(),
                triggers: vec![always],
                transient: true,
                strip_profiles: vec![StripConfig {
                    device: "Lighting Node CORE".to_string(),
                    channel: 0,
                    indices: Indices::Range(0, 2),
                    effect: Effect::Static {
                        color: Color::Rgb(1000, 0, 0),
                        op: ColorOp::Blend(1000),
                    },
                }],
            },
        ],
        fan_profiles: vec![FanProfile {
            name: "fans".to_string(),
            triggers: vec![],
            fans: vec![],
        }],
    };
    let mut mgr = ProfileManager::new(
        vec![CorsairLighting::new_lighting_node_core()],
        config,
        0,
    );
    mgr.probes = vec![Some(5000)];
    let acts = mgr.update(30);
    // the overlay painted, but the reported current profile is the base one
    assert_eq!(acts.color_profile, 0);
    assert_eq!(mgr.devices[0].strips[0].colors, vec![Color::Rgb(1000, 0, 0); 2]);
    assert!(mgr.devices[0].strips_dirty);
}

#[test]
fn stall_triggers_exactly_one_recovery() {
    let config = base_config(vec![plain_profile("only", vec![], false)]);
    let mut mgr = ProfileManager::new(vec![], config, 0);
    let a = mgr.update(30);
    assert!(!a.reinitialize);
    // a gap of almost five seconds: the host was suspended
    let b = mgr.update(5000);
    assert!(b.reinitialize);
    // the caller reinitializes the devices and resets the timer
    mgr.recovered(10050);
    let c = mgr.update(10080);
    assert!(!c.reinitialize);
}

#[test]
fn fan_profile_bindings_reach_the_named_device() {
    let config = Config {
        color_profiles: vec![plain_profile("only", vec![], false)],
        fan_profiles: vec![FanProfile {
            name: "quiet".to_string(),
            triggers: vec![],
            fans: vec![FanConfig {
                device: "Commander PRO".to_string(),
                channel: 2,
                config: Fan::Pwm(700),
            }],
        }],
    };
    let mut mgr = ProfileManager::new(vec![CorsairLighting::new_commander_pro()], config, 0);
    let acts = mgr.update(30);
    assert!(acts.fan_changed); // the first tick activates fan profile 0
    assert_eq!(acts.fan_profile, 0);
    assert!(matches!(mgr.devices[0].fans[2], Fan::Pwm(700)));
    assert!(mgr.devices[0].fans_dirty);
    let again = mgr.update(60);
    assert!(!again.fan_changed);
}

#[test]
fn color_profile_renders_onto_the_named_strip() {
    let config = Config {
        color_profiles: vec![ColorProfile {
            name: "red".to_string(),
            triggers: vec![],
            transient: false,
            strip_profiles: vec![StripConfig {
                device: "Lighting Node CORE".to_string(),
                channel: 0,
                indices: Indices::Range(0, 3),
                effect: Effect::Static { color: Color::Rgb(1000, 0, 0), op: ColorOp::Blend(1000) },
            }],
        }],
        fan_profiles: vec![FanProfile {
            name: "fans".to_string(),
            triggers: vec![],
            fans: vec![],
        }],
    };
    let mut mgr = ProfileManager::new(
        vec![CorsairLighting::new_lighting_node_core()],
        config,
        0,
    );
    let acts = mgr.update(30);
    assert!(acts.rendered);
    assert_eq!(mgr.devices[0].strips[0].colors, vec![Color::Rgb(1000, 0, 0); 3]);
    assert!(mgr.devices[0].strips_dirty);
}

#[test]
fn snapshot_concatenates_device_probes_in_order() {
    let mut a = CorsairLighting::new_commander_pro();
    a.record_initial_temp(1, 1, 0);
    let b = CorsairLighting::new_lighting_node_core();
    let config = base_config(vec![plain_profile("only", vec![], false)]);
    let mut mgr = ProfileManager::new(vec![a, b], config, 0);
    mgr.rebuild_probes();
    assert_eq!(mgr.probes, vec![None, Some(256), None, None]);
}

#[test]
fn status_log_is_due_every_ten_seconds() {
    let config = base_config(vec![plain_profile("only", vec![], false)]);
    let mut mgr = ProfileManager::new(vec![], config, 0);
    assert!(!mgr.status_due(5000));
    assert!(mgr.status_due(10050));
    assert!(!mgr.status_due(10080));
    assert!(mgr.status_due(20100));
}

#[test]
fn profile_initialize_flattens_every_binding() {
    let config = Config {
        color_profiles: vec![ColorProfile {
            name: "p".to_string(),
            triggers: vec![],
            transient: false,
            strip_profiles: vec![StripConfig {
                device: "d".to_string(),
                channel: 0,
                indices: Indices::Ranges(vec![(1, 3), (8, 9)]),
                effect: Effect::Static { color: Color::Rgb(0, 0, 0), op: ColorOp::Blend(1000) },
            }],
        }],
        fan_profiles: vec![FanProfile { name: "f".to_string(), triggers: vec![], fans: vec![] }],
    };
    let mgr = ProfileManager::new(vec![], config, 0);
    assert_eq!(
        *mgr.color_profiles[0].strip_profiles[0].indices.indices(),
        vec![1, 2, 8]
    );
}
