//! Frame stepping for sprite-strip animations: given the strip's atlas
//! indices and the frame currently shown, which atlas index comes next.
//! Which strip a character shows is decided in `character`; the strips'
//! index tables are the host's atlas layout.

use vstd::prelude::*;

verus! {

/// Position of the first occurrence of `v` in `s`, if any.
pub open spec fn spec_position(s: Seq<usize>, v: usize) -> Option<int>
    decreases s.len(),
{
    if s.len() == 0 {
        None
    } else if s[0] == v {
        Some(0int)
    } else {
        match spec_position(s.drop_first(), v) {
            Some(i) => Some(i + 1),
            None => None,
        }
    }
}

/// A found position lies in range and is the first occurrence.
pub proof fn lemma_position_props(s: Seq<usize>, v: usize)
    ensures
        match spec_position(s, v) {
            Some(i) => 0 <= i < s.len() && s[i] == v && forall|k: int| 0 <= k < i ==> s[k] != v,
            None => forall|k: int| 0 <= k < s.len() ==> s[k] != v,
        },
    decreases s.len(),
{
    if s.len() > 0 && s[0] != v {
        lemma_position_props(s.drop_first(), v);
        match spec_position(s.drop_first(), v) {
            Some(j) => {
                assert forall|k: int| 0 <= k < j + 1 implies s[k] != v by {
                    if k > 0 {
                        assert(s.drop_first()[k - 1] != v);
                    }
                }
            },
            None => {
                assert forall|k: int| 0 <= k < s.len() implies s[k] != v by {
                    if k > 0 {
                        assert(s.drop_first()[k - 1] != v);
                    }
                }
            },
        }
    }
}

/// Index into the strip of the frame after `current`, wrapping past the
/// end; nothing when `current` is not a frame of the strip.
pub fn next_sprite_index_option(indices: &Vec<usize>, current: usize) -> (r: Option<usize>)
    requires
        indices@.len() > 0,
    ensures
        r == match spec_position(indices@, current) {
            Some(i) => Some((((i + 1) % (indices@.len() as int))) as usize),
            None => None::<usize>,
        },
{
    proof {
        lemma_position_props(indices@, current);
    }
    let mut i: usize = 0;
    while i < indices.len()
        invariant
            i <= indices@.len(),
            forall|k: int| 0 <= k < i ==> indices@[k] != current,
        decreases indices@.len() - i,
    {
        if indices[i] == current {
            proof {
                assert(indices@[i as int] == current);
                lemma_position_first(indices@, current, i as int);
            }
            return Some((i + 1) % indices.len());
        }
        i = i + 1;
    }
    None
}

/// The first occurrence characterizes `spec_position`.
proof fn lemma_position_first(s: Seq<usize>, v: usize, i: int)
    requires
        0 <= i < s.len(),
        s[i] == v,
        forall|k: int| 0 <= k < i ==> s[k] != v,
    ensures
        spec_position(s, v) == Some(i),
    decreases i,
{
    if i > 0 {
        lemma_position_first(s.drop_first(), v, i - 1);
    }
}

/// Next frame of a looping strip: past the last frame it wraps to the
/// first, and from a frame foreign to the strip it restarts at the first.
pub fn next_sprite_index_repeat(indices: &Vec<usize>, current: usize) -> (r: usize)
    requires
        indices@.len() > 0,
    ensures
        r == match spec_position(indices@, current) {
            Some(i) => indices@[(i + 1) % (indices@.len() as int)],
            None => indices@[0],
        },
{
    let n = indices.len();
    proof {
        if spec_position(indices@, current) is Some {
            let i = spec_position(indices@, current)->0;
            vstd::arithmetic::div_mod::lemma_mod_bound(i + 1, indices@.len() as int);
        }
    }
    let idx = match next_sprite_index_option(indices, current) {
        Some(i) => i,
        None => 0,
    };
    indices[idx]
}

/// Next frame of a one-shot strip: a frame foreign to the strip stays as
/// it is.
pub fn next_sprite_index_once(indices: &Vec<usize>, current: usize) -> (r: usize)
    requires
        indices@.len() > 0,
    ensures
        r == match spec_position(indices@, current) {
            Some(i) => indices@[(i + 1) % (indices@.len() as int)],
            None => current,
        },
{
    let n = indices.len();
    proof {
        if spec_position(indices@, current) is Some {
            let i = spec_position(indices@, current)->0;
            vstd::arithmetic::div_mod::lemma_mod_bound(i + 1, indices@.len() as int);
        }
    }
    match next_sprite_index_option(indices, current) {
        Some(i) => indices[i],
        None => current,
    }
}

/// One step of the death animation: the next frame of the strip, or
/// nothing when the strip's last frame has been shown — the moment the
/// character is gone and the death is reported.
pub fn death_animation_step(indices: &Vec<usize>, current: usize) -> (r: Option<usize>)
    requires
        indices@.len() > 0,
        indices@.contains(current),
    ensures
        r == match spec_position(indices@, current) {
            Some(i) => if i >= indices@.len() - 1 {
                None::<usize>
            } else {
                Some(indices@[i + 1])
            },
            None => None::<usize>,
        },
{
    proof {
        lemma_position_props(indices@, current);
        if spec_position(indices@, current) is None {
            let w = choose|k: int| 0 <= k < indices@.len() && indices@[k] == current;
            assert(indices@[w] != current);
        }
    }
    let mut i: usize = 0;
    while i < indices.len()
        invariant
            i <= indices@.len(),
            forall|k: int| 0 <= k < i ==> indices@[k] != current,
        decreases indices@.len() - i,
    {
        if indices[i] == current {
            proof {
                assert(indices@[i as int] == current);
                lemma_position_first(indices@, current, i as int);
            }
            if i >= indices.len() - 1 {
                return None;
            } else {
                return Some(indices[i + 1]);
            }
        }
        i = i + 1;
    }
    None
}

} // verus!
