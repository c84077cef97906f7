use vstd::prelude::*;

verus! {

pub const GIT_RED: u32 = 0xE64D3F;

pub const GIT_YELLOW: u32 = 0xF1C40F;

pub const GIT_GREEN: u32 = 0x2ECC71;

pub const GIT_BLUE: u32 = 0x3498DB;

pub const GIT_PURPLE: u32 = 0x9B59B6;

/// The palette the graph is drawn with, as RGB values.
pub fn default_palette() -> (r: Vec<u32>)
    ensures
        r@ == seq![GIT_PURPLE, GIT_BLUE, GIT_RED, GIT_YELLOW, GIT_GREEN],
{
    vec![GIT_PURPLE, GIT_BLUE, GIT_RED, GIT_YELLOW, GIT_GREEN]
}

/// What the palette knows during a pass: the color of each active lane, the colors given
/// back by closed lanes (the last one given back is reused first), the next palette index
/// handed out fresh, and the palette's size.
pub struct ColorState {
    pub lane_colors: Map<int, nat>,
    pub released: Seq<nat>,
    pub next: nat,
    pub size: nat,
}

pub open spec fn color_state_wf(st: ColorState) -> bool {
    &&& st.size >= 1
    &&& st.next < st.size
    &&& forall|l: int| #[trigger] st.lane_colors.contains_key(l) ==> st.lane_colors[l] < st.size
    &&& forall|k: int| 0 <= k < st.released.len() ==> #[trigger] st.released[k] < st.size
}

/// The color of `lane`: the one it has, else the last color given back, else the next
/// palette index in turn; with the state after the request.
pub open spec fn color_for(st: ColorState, lane: int) -> (ColorState, nat) {
    if st.lane_colors.contains_key(lane) {
        (st, st.lane_colors[lane])
    } else if st.released.len() > 0 {
        let c = st.released.last();
        (ColorState { lane_colors: st.lane_colors.insert(lane, c), released: st.released.drop_last(), ..st }, c)
    } else {
        let c = st.next;
        (
            ColorState {
                lane_colors: st.lane_colors.insert(lane, c),
                next: (st.next + 1) % st.size,
                ..st
            },
            c,
        )
    }
}

/// The state after `lane` is closed: its record goes and its color is given back.
pub open spec fn release_lane(st: ColorState, lane: int) -> ColorState {
    if st.lane_colors.contains_key(lane) {
        ColorState {
            lane_colors: st.lane_colors.remove(lane),
            released: st.released.push(st.lane_colors[lane]),
            ..st
        }
    } else {
        st
    }
}

/// The state at the start of a pass over a palette of `size` colors.
pub open spec fn fresh_colors(size: nat) -> ColorState {
    ColorState { lane_colors: Map::empty(), released: Seq::empty(), next: 0, size }
}

/// A color request keeps the palette state well formed and hands out a palette index.
pub proof fn lemma_color_for_wf(st: ColorState, lane: int)
    requires
        color_state_wf(st),
    ensures
        color_state_wf(color_for(st, lane).0),
        color_for(st, lane).1 < st.size,
        color_for(st, lane).0.size == st.size,
{
}

/// Closing a lane keeps the palette state well formed.
pub proof fn lemma_release_lane_wf(st: ColorState, lane: int)
    requires
        color_state_wf(st),
    ensures
        color_state_wf(release_lane(st, lane)),
        release_lane(st, lane).size == st.size,
{
}

/// Closing a lane loses no color: the next lane that asks for a color and has none gets
/// exactly the color the closed lane had.
pub proof fn lemma_closed_color_reused(st: ColorState, closed: int, next_lane: int)
    requires
        color_state_wf(st),
        st.lane_colors.contains_key(closed),
        !release_lane(st, closed).lane_colors.contains_key(next_lane),
    ensures
        color_for(release_lane(st, closed), next_lane).1 == st.lane_colors[closed],
{
}

/// Gives each lane a palette index, and takes it back when the lane closes.
pub struct ColorManager {
    palette: Vec<u32>,
    lane_colors: Vec<Option<usize>>,
    released: Vec<usize>,
    next: usize,
}

impl ColorManager {
    pub closed spec fn view(&self) -> ColorState {
        ColorState {
            lane_colors: Map::new(
                |l: int| 0 <= l < self.lane_colors@.len() && self.lane_colors@[l] is Some,
                |l: int| self.lane_colors@[l]->0 as nat,
            ),
            released: self.released@.map_values(|c: usize| c as nat),
            next: self.next as nat,
            size: self.palette@.len(),
        }
    }

    pub closed spec fn wf(&self) -> bool {
        &&& color_state_wf(self@)
        &&& forall|l: int|
            0 <= l < self.lane_colors@.len() && #[trigger] self.lane_colors@[l] is Some
                ==> self.lane_colors@[l]->0 < self.palette@.len()
    }

    /// The RGB values behind the palette indices.
    pub closed spec fn palette(&self) -> Seq<u32> {
        self.palette@
    }

    pub fn new(palette: Vec<u32>) -> (r: ColorManager)
        requires
            palette@.len() >= 1,
        ensures
            r@ == fresh_colors(palette@.len()),
            r.palette() == palette@,
            r.wf(),
    {
        let r = ColorManager { palette, lane_colors: Vec::new(), released: Vec::new(), next: 0 };
        proof {
            assert(r@.lane_colors =~= Map::<int, nat>::empty());
            assert(r@.released =~= Seq::<nat>::empty());
        }
        r
    }

    /// The RGB value of palette index `color`.
    pub fn rgb(&self, color: usize) -> (r: u32)
        requires
            color < self.palette().len(),
        ensures
            r == self.palette()[color as int],
    {
        self.palette[color]
    }

    /// The palette index of `lane`, given out on its first request.
    pub fn get_color(&mut self, lane: &usize) -> (r: usize)
        requires
            old(self).wf(),
        ensures
            final(self).wf(),
            (final(self)@, r as nat) == color_for(old(self)@, *lane as int),
            final(self).palette() == old(self).palette(),
    {
        let lane = *lane;
        if lane < self.lane_colors.len() {
            if let Some(c) = self.lane_colors[lane] {
                return c;
            }
        }
        let ghost st = self@;
        proof {
            assert(!st.lane_colors.contains_key(lane as int));
        }
        let c = match self.released.pop() {
            Some(c) => {
                proof {
                    assert(self.released@.map_values(|c: usize| c as nat) =~= st.released.drop_last());
                    assert(st.released[st.released.len() - 1] == c as nat);
                }
                c
            },
            None => {
                let c = self.next;
                let size = self.palette.len();
                proof {
                    assert(st.next < st.size);
                }
                self.next = if self.next + 1 < size {
                    proof {
                        vstd::arithmetic::div_mod::lemma_small_mod((st.next + 1) as nat, st.size);
                    }
                    self.next + 1
                } else {
                    proof {
                        vstd::arithmetic::div_mod::lemma_mod_self_0(st.size as int);
                    }
                    0
                };
                c
            },
        };
        let ghost mid = self@;
        proof {
            assert(c < self.palette@.len());
            assert(color_state_wf(mid));
        }
        while self.lane_colors.len() <= lane
            invariant
                self@.lane_colors == st.lane_colors,
                self@.released == mid.released,
                self@.next == mid.next,
                self@.size == mid.size,
                self.palette@ == old(self).palette@,
                c < self.palette@.len(),
                forall|l: int|
                    0 <= l < self.lane_colors@.len() && #[trigger] self.lane_colors@[l] is Some
                        ==> self.lane_colors@[l]->0 < self.palette@.len(),
            decreases (lane as int) + 1 - (self.lane_colors@.len() as int),
        {
            let ghost before = self.lane_colors@;
            self.lane_colors.push(None);
            proof {
                assert(self@.lane_colors =~= st.lane_colors) by {
                    assert forall|l: int| 0 <= l < self.lane_colors@.len() && self.lane_colors@[l] is Some
                        implies 0 <= l < before.len() && before[l] is Some by {}
                }
            }
        }
        self.lane_colors.set(lane, Some(c));
        proof {
            assert(self@.lane_colors =~= st.lane_colors.insert(lane as int, c as nat));
        }
        c
    }

    /// Closes `lane`: its record goes and its color can be given out again.
    pub fn remove_lane_color(&mut self, lane: &usize)
        requires
            old(self).wf(),
        ensures
            final(self).wf(),
            final(self)@ == release_lane(old(self)@, *lane as int),
            final(self).palette() == old(self).palette(),
    {
        let lane = *lane;
        if lane < self.lane_colors.len() {
            if let Some(c) = self.lane_colors[lane] {
                let ghost st = self@;
                self.lane_colors.set(lane, None);
                self.released.push(c);
                proof {
                    assert(self@.lane_colors =~= st.lane_colors.remove(lane as int));
                    assert(self@.released =~= st.released.push(c as nat));
                }
            }
        }
    }
}

} // verus!
