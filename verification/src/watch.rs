//! The decisions of the watch loop: the spinning loading icon and when to look
//! for new CSS files again. The loop itself (parsing, sleeping, printing) is run
//! by the program around the library.
use vstd::prelude::*;
use vstd::string::*;

verus! {

/// The counters of the watch loop.
pub struct WatchState {
    /// The cycle counter that decides when the icon turns: it starts at 0, counts
    /// each cycle and restarts at 1 after the files are indexed again.
    pub cycle: i32,
    /// Watch cycles completed since the files were last indexed.
    pub since_index: i32,
    /// Which glyph of the icon comes next.
    pub load_state: i32,
    /// Which colour the icon is drawn in.
    pub load_color: i32,
}

/// What one cycle of the watch loop does after parsing and sleeping.
pub struct WatchAction {
    /// The text that redraws the loading icon, on every other cycle.
    pub icon: Option<String>,
    /// Whether the CSS files are indexed again.
    pub reindex: bool,
}

/// The glyph shown for an icon state.
pub open spec fn glyph(load_state: i32) -> Seq<char> {
    if load_state == 0 {
        "/"@
    } else if load_state == 1 {
        "-"@
    } else if load_state == 2 {
        "\\"@
    } else if load_state == 3 {
        "|"@
    } else {
        "*"@
    }
}

/// The icon drawn in a colour: plain, cyan, blue or magenta.
pub open spec fn icon_text(g: Seq<char>, color: i32) -> Seq<char> {
    if color == 1 {
        "\r[\x1b[36m"@ + g + "\x1b[0m]"@
    } else if color == 2 {
        "\r[\x1b[34m"@ + g + "\x1b[0m]"@
    } else if color == 3 {
        "\r[\x1b[35m"@ + g + "\x1b[0m]"@
    } else {
        "\r["@ + g + "]"@
    }
}

impl WatchState {
    /// The counters when watching starts.
    pub fn new() -> (res: WatchState)
        ensures
            res.cycle == 0 && res.since_index == 0 && res.load_state == 0 && res.load_color == 0,
            res.wf(),
    {
        WatchState { cycle: 0, since_index: 0, load_state: 0, load_color: 0 }
    }

    /// The counters stay in their ranges.
    pub open spec fn wf(&self) -> bool {
        0 <= self.since_index < i32::MAX && 0 <= self.cycle <= self.since_index + 1
            && 0 <= self.load_state <= 3 && 0 <= self.load_color <= 4
    }

    /// Whether the counters are in their ranges, as `step` needs.
    pub fn is_wf(&self) -> (res: bool)
        ensures
            res == self.wf(),
    {
        0 <= self.since_index && self.since_index < i32::MAX && 0 <= self.cycle && self.cycle
            <= self.since_index + 1 && 0 <= self.load_state && self.load_state <= 3 && 0
            <= self.load_color && self.load_color <= 4
    }

    /// The icon state and colour after a redraw: state 3 wraps to 0 and moves the colour on.
    pub open spec fn turned(&self) -> (i32, i32) {
        if self.load_state == 3 {
            (0, if self.load_color > 3 {
                0
            } else {
                (self.load_color + 1) as i32
            })
        } else {
            (self.load_state, self.load_color)
        }
    }

    /// One cycle: on even counts the icon turns and is redrawn; once
    /// `update_after_cycles` cycles have passed since the files were last indexed,
    /// they are indexed again, the count since indexing restarts at 0 and the
    /// icon's counter at 1.
    pub fn step(&self, update_after_cycles: i32) -> (res: (WatchState, WatchAction))
        requires
            self.wf(),
        ensures
            res.0.wf(),
            self.cycle % 2 == 0 ==> res.0.load_state == self.turned().0 + 1 && res.0.load_color
                == self.turned().1 && (res.1.icon matches Some(t) && t@ == icon_text(
                glyph(self.turned().0),
                self.turned().1,
            )),
            self.cycle % 2 != 0 ==> res.0.load_state == self.load_state && res.0.load_color
                == self.load_color && res.1.icon is None,
            res.1.reindex == (self.since_index + 1 >= update_after_cycles),
            res.0.since_index == (if res.1.reindex {
                0
            } else {
                self.since_index + 1
            }),
            res.0.cycle == (if res.1.reindex {
                1
            } else {
                self.cycle + 1
            }),
    {
        let mut load_state = self.load_state;
        let mut load_color = self.load_color;
        let mut icon: Option<String> = None;
        if self.cycle % 2 == 0 {
            if load_state == 3 {
                load_state = 0;
                if load_color > 3 {
                    load_color = 0;
                } else {
                    load_color += 1;
                }
            }
            let g = if load_state == 0 {
                "/"
            } else if load_state == 1 {
                "-"
            } else if load_state == 2 {
                "\\"
            } else if load_state == 3 {
                "|"
            } else {
                "*"
            };
            load_state += 1;
            let text = if load_color == 1 {
                String::from_str("\r[\x1b[36m").concat(g).concat("\x1b[0m]")
            } else if load_color == 2 {
                String::from_str("\r[\x1b[34m").concat(g).concat("\x1b[0m]")
            } else if load_color == 3 {
                String::from_str("\r[\x1b[35m").concat(g).concat("\x1b[0m]")
            } else {
                String::from_str("\r[").concat(g).concat("]")
            };
            icon = Some(text);
        }
        let completed = self.since_index + 1;
        let reindex = completed >= update_after_cycles;
        let (cycle, since_index) = if reindex {
            (1, 0)
        } else {
            (self.cycle + 1, completed)
        };
        (WatchState { cycle, since_index, load_state, load_color }, WatchAction { icon, reindex })
    }
}

} // verus!
