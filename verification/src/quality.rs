//! Render quality presets: scene resolution, shading rates and reflection
//! samples.
use crate::flags::{debug_var, Env, QUALITY};
use crate::gfx::Extent;
use crate::plane;
use crate::text::same_text;
use vstd::prelude::*;
use vstd::string::*;

verus! {

/// A render quality preset.
#[derive(Clone, Copy, Debug, PartialEq, Eq, Structural)]
pub enum Quality {
    Performance,
    Balanced,
    Cinematic,
}

/// Block of pixels that are shaded together.
#[derive(Clone, Copy, Debug, PartialEq, Eq, Structural)]
pub struct Rate {
    pub width: u32,
    pub height: u32,
}

/// What a preset stands for.
#[derive(Clone, Copy, Debug, PartialEq, Eq, Structural)]
pub struct Settings {
    /// Scene size per dimension, in hundredths of the output.
    pub scene_percent: u32,
    /// Sky and clouds.
    pub sky: Rate,
    pub ground: Rate,
    pub composite: Rate,
    /// Reflection samples of a material per lobe.
    pub ibl_samples: u32,
}

/// The presets, from the fastest to the finest.
pub open spec fn settings_of(q: Quality) -> Settings {
    match q {
        Quality::Performance => Settings {
            scene_percent: 80,
            sky: Rate { width: 4, height: 4 },
            ground: Rate { width: 4, height: 2 },
            composite: Rate { width: 2, height: 2 },
            ibl_samples: 4,
        },
        Quality::Balanced => Settings {
            scene_percent: 100,
            sky: Rate { width: 2, height: 2 },
            ground: Rate { width: 1, height: 1 },
            composite: Rate { width: 1, height: 1 },
            ibl_samples: 8,
        },
        Quality::Cinematic => Settings {
            scene_percent: 100,
            sky: Rate { width: 1, height: 1 },
            ground: Rate { width: 1, height: 1 },
            composite: Rate { width: 1, height: 1 },
            ibl_samples: 16,
        },
    }
}

/// The name of a preset, as it is asked for.
pub open spec fn name_of(q: Quality) -> Seq<char> {
    match q {
        Quality::Performance => "performance"@,
        Quality::Balanced => "balanced"@,
        Quality::Cinematic => "cinematic"@,
    }
}

/// One side of the scene: a share of the output's, and never less than a pixel.
pub open spec fn scaled(side: u32, percent: u32) -> nat {
    let share = side as nat * percent as nat / 100;
    if percent == 100 || share >= 1 {
        share
    } else {
        1
    }
}

fn scale(side: u32, percent: u32) -> (r: u32)
    requires
        percent <= 100,
    ensures
        r == scaled(side, percent),
{
    assert(side as nat * percent as nat <= side as nat * 100) by (nonlinear_arith)
        requires
            percent <= 100,
    ;
    let share: u64 = side as u64 * percent as u64 / 100;
    if percent == 100 || share >= 1 {
        share as u32
    } else {
        1
    }
}

impl Quality {
    /// What the preset stands for.
    pub fn settings(self) -> (r: Settings)
        ensures
            r == settings_of(self),
    {
        match self {
            Quality::Performance => Settings {
                scene_percent: 80,
                sky: Rate { width: 4, height: 4 },
                ground: Rate { width: 4, height: 2 },
                composite: Rate { width: 2, height: 2 },
                ibl_samples: 4,
            },
            Quality::Balanced => Settings {
                scene_percent: 100,
                sky: Rate { width: 2, height: 2 },
                ground: Rate { width: 1, height: 1 },
                composite: Rate { width: 1, height: 1 },
                ibl_samples: 8,
            },
            Quality::Cinematic => Settings {
                scene_percent: 100,
                sky: Rate { width: 1, height: 1 },
                ground: Rate { width: 1, height: 1 },
                composite: Rate { width: 1, height: 1 },
                ibl_samples: 16,
            },
        }
    }

    /// The preset of a name.
    pub fn parse(name: &str) -> (r: Option<Quality>)
        ensures
            match r {
                Some(q) => name@ == name_of(q),
                None => forall|q: Quality| name@ != name_of(q),
            },
    {
        if same_text(name, "performance") {
            Some(Quality::Performance)
        } else if same_text(name, "balanced") {
            Some(Quality::Balanced)
        } else if same_text(name, "cinematic") {
            Some(Quality::Cinematic)
        } else {
            None
        }
    }

    /// The preset that a process runs with, or `None` where the flag names no
    /// preset. A playable build always runs with the finest; elsewhere the
    /// default is balanced.
    pub fn from_env(env: &Env) -> (r: Option<Quality>)
        ensures
            !env.debug_only ==> r == Some(Quality::Cinematic),
            env.debug_only ==> match env.debug_text(QUALITY@) {
                None => r == Some(Quality::Balanced),
                Some(name) => match r {
                    Some(q) => name == name_of(q),
                    None => forall|q: Quality| name != name_of(q),
                },
            },
    {
        if !env.debug_only {
            return Some(Quality::Cinematic);
        }
        match debug_var(env, QUALITY) {
            None => Some(Quality::Balanced),
            Some(name) => Quality::parse(name.as_str()),
        }
    }

    /// Size of the scene under an output.
    pub fn scene_size(self, output: Extent) -> (r: Extent)
        ensures
            r.width == scaled(output.width, settings_of(self).scene_percent),
            r.height == scaled(output.height, settings_of(self).scene_percent),
    {
        let percent: u32 = self.settings().scene_percent;
        Extent { width: scale(output.width, percent), height: scale(output.height, percent) }
    }
}

/// No two presets share a name.
pub proof fn presets_have_distinct_names(p: Quality, q: Quality)
    ensures
        name_of(p) == name_of(q) ==> p == q,
{
    reveal_strlit("performance");
    reveal_strlit("balanced");
    reveal_strlit("cinematic");
    assert("balanced"@[0] == 'b' && "cinematic"@[0] == 'c' && "performance"@[0] == 'p');
}

/// The scene under an output with pixels has pixels, and no more than it.
pub proof fn scenes_fit_the_output(q: Quality, side: u32)
    requires
        side > 0,
    ensures
        1 <= scaled(side, settings_of(q).scene_percent) <= side,
{
}

/// A finer preset shades no fewer pixels of the scene, in no larger blocks,
/// and takes more reflection samples.
pub proof fn finer_presets_do_more()
    ensures
        ({
            let (a, b, c) = (
                settings_of(Quality::Performance),
                settings_of(Quality::Balanced),
                settings_of(Quality::Cinematic),
            );
            &&& a.scene_percent <= b.scene_percent <= c.scene_percent
            &&& a.sky.width >= b.sky.width >= c.sky.width
            &&& a.sky.height >= b.sky.height >= c.sky.height
            &&& a.ground.width >= b.ground.width >= c.ground.width
            &&& a.ground.height >= b.ground.height >= c.ground.height
            &&& a.composite.width >= b.composite.width >= c.composite.width
            &&& a.composite.height >= b.composite.height >= c.composite.height
            &&& a.ibl_samples < b.ibl_samples < c.ibl_samples
        }),
{
}

/// Only the performance preset gives up detail of the ground and of the final
/// composite, and pixels of the scene. Every other preset shades both at one
/// pixel a block, in a scene of the output's size. The sky is shaded in
/// squares, and pixel by pixel by the cinematic preset alone.
pub proof fn only_performance_is_coarse(q: Quality)
    ensures
        ({
            let s = settings_of(q);
            let coarse = q == Quality::Performance;
            &&& s.ground.width == 1 && s.ground.height == 1 <==> !coarse
            &&& s.composite.width == 1 && s.composite.height == 1 <==> !coarse
            &&& s.scene_percent == 100 <==> !coarse
            &&& s.sky.width == s.sky.height
            &&& s.sky.width == 1 <==> q == Quality::Cinematic
            &&& coarse ==> s.ground.width == 2 * s.ground.height && s.ground.width == s.sky.width
            &&& coarse ==> s.composite.width == s.composite.height && s.composite.height
                == s.ground.height
        }),
{
}

/// Reflection samples grow as the blocks of the sky shrink: the number of
/// samples of a lobe, times the side of a block, is sixteen. Blocks have sides
/// that devices can shade, and there is a shader for the number of samples.
pub proof fn samples_follow_the_sky(q: Quality)
    ensures
        ({
            let s = settings_of(q);
            &&& s.ibl_samples * s.sky.width == 16
            &&& can_be_shaded(s.sky) && can_be_shaded(s.ground) && can_be_shaded(s.composite)
            &&& plane::has_variant(s.ibl_samples)
        }),
{
}

/// A block with sides of one, two or four pixels.
pub open spec fn can_be_shaded(r: Rate) -> bool {
    &&& r.width == 1 || r.width == 2 || r.width == 4
    &&& r.height == 1 || r.height == 2 || r.height == 4
}

/// A preset between two others lies between them: the one with fewer samples
/// has no finer sky, ground or composite, and no larger scene. From the fastest
/// to the finest, each has twice the samples of the one before.
pub proof fn presets_are_in_order(p: Quality, q: Quality)
    requires
        settings_of(p).ibl_samples < settings_of(q).ibl_samples,
    ensures
        ({
            let (a, b) = (settings_of(p), settings_of(q));
            &&& 2 * a.ibl_samples <= b.ibl_samples
            &&& 2 * b.sky.width <= a.sky.width
            &&& b.ground.width <= a.ground.width && b.ground.height <= a.ground.height
            &&& b.composite.width <= a.composite.width && b.composite.height <= a.composite.height
            &&& a.scene_percent <= b.scene_percent
            &&& q != Quality::Performance && p != Quality::Cinematic
        }),
{
}

/// A scene of full size is the output's, and that of the performance preset
/// four fifths of it on each side, rounded down, but for an output of less than
/// two pixels.
pub proof fn scenes_have_their_share(q: Quality, side: u32)
    ensures
        ({
            let r = scaled(side, settings_of(q).scene_percent) as int;
            &&& q != Quality::Performance ==> r == side
            &&& q == Quality::Performance && side >= 2 ==> 5 * r <= 4 * side && 4 * side < 5 * (r + 1)
            &&& q == Quality::Performance && side < 2 ==> r == 1
        }),
{
}

/// A preset is asked for by its name in small letters: the names begin with
/// different letters, and have different lengths.
pub proof fn presets_go_by_their_names(q: Quality)
    ensures
        ({
            let name = name_of(q);
            &&& q == Quality::Performance <==> name.len() == 11
            &&& q == Quality::Balanced <==> name.len() == 8
            &&& q == Quality::Cinematic <==> name.len() == 9
            &&& q == Quality::Performance <==> name[0] == 'p'
            &&& q == Quality::Balanced <==> name[0] == 'b'
            &&& q == Quality::Cinematic <==> name[0] == 'c'
            &&& forall|i: int| 0 <= i < name.len() ==> 'a' <= #[trigger] name[i] <= 'z'
        }),
{
    reveal_strlit("performance");
    reveal_strlit("balanced");
    reveal_strlit("cinematic");
}

} // verus!
