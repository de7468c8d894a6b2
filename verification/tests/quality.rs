use explora::flags::{Env, EnvValue, EnvVar, QUALITY};
use explora::gfx::Extent;
use explora::quality::{Quality, Rate, Settings};

fn requested(debug_only: bool, value: EnvValue) -> Env {
    Env { debug_only, vars: vec![EnvVar { name: QUALITY.to_string(), value }] }
}

#[test]
fn presets_are_documented() {
    assert_eq!(
        Quality::Performance.settings(),
        Settings {
            scene_percent: 80,
            sky: Rate { width: 4, height: 4 },
            ground: Rate { width: 4, height: 2 },
            composite: Rate { width: 2, height: 2 },
            ibl_samples: 4,
        }
    );
    assert_eq!(Quality::Balanced.settings().sky, Rate { width: 2, height: 2 });
    assert_eq!(Quality::Balanced.settings().ibl_samples, 8);
    assert_eq!(Quality::Cinematic.settings().sky, Rate { width: 1, height: 1 });
    assert_eq!(Quality::Cinematic.settings().ibl_samples, 16);
}

#[test]
fn presets_are_named() {
    assert_eq!(Quality::parse("performance"), Some(Quality::Performance));
    assert_eq!(Quality::parse("balanced"), Some(Quality::Balanced));
    assert_eq!(Quality::parse("cinematic"), Some(Quality::Cinematic));
    assert_eq!(Quality::parse("Cinematic"), None);
    assert_eq!(Quality::parse(""), None);
}

#[test]
fn scenes_follow_the_preset() {
    let output = Extent { width: 1920, height: 1080 };
    assert_eq!(
        Quality::Performance.scene_size(output),
        Extent { width: 1536, height: 864 }
    );
    assert_eq!(Quality::Balanced.scene_size(output), output);
    assert_eq!(Quality::Cinematic.scene_size(output), output);
    assert_eq!(
        Quality::Performance.scene_size(Extent { width: 1, height: 2 }),
        Extent { width: 1, height: 1 }
    );
}

#[test]
fn playable_builds_run_with_the_finest_preset() {
    let text = |s: &str| EnvValue::Text(s.to_string());
    assert_eq!(
        Quality::from_env(&requested(false, text("performance"))),
        Some(Quality::Cinematic)
    );
    assert_eq!(
        Quality::from_env(&requested(true, text("performance"))),
        Some(Quality::Performance)
    );
    assert_eq!(
        Quality::from_env(&Env { debug_only: true, vars: vec![] }),
        Some(Quality::Balanced)
    );
    assert_eq!(Quality::from_env(&requested(true, text("fastest"))), None);
    assert_eq!(Quality::from_env(&requested(true, EnvValue::Opaque)), Some(Quality::Balanced));
}
