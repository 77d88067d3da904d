//! The window manager's state, as far as the layout commands and the event
//! handlers read it.

use crate::columns::grid::ColumnGrid;
use vstd::prelude::*;

verus! {

/// The id of a container, by the 128 bits of its UUID.
#[derive(Debug, Clone, Copy, PartialEq, Eq, Structural, Hash)]
pub struct ContainerId {
    pub bits: u128,
}

/// The handle by which the platform knows a window.
#[derive(Debug, Clone, Copy, PartialEq, Eq, Structural, Hash)]
pub struct WindowId {
    pub handle: isize,
}

/// A fraction of the workspace, by the bits of the `f32` that measures it.
#[derive(Debug, Clone, Copy, PartialEq, Eq, Structural, Hash)]
pub struct Fraction {
    pub bits: u32,
}

/// The bits of the narrowest and of the widest fraction that a center
/// column takes: a tenth and nine tenths.
pub const NARROWEST_CENTER: u32 = 0x3dcc_cccd;

pub const WIDEST_CENTER: u32 = 0x3f66_6666;

/// The bits from which on a number is negative, and those of the infinite
/// number, beyond which there is no number.
pub const NEGATIVE: u32 = 0x8000_0000;

pub const INFINITE: u32 = 0x7f80_0000;

impl Fraction {
    /// Whether the bits stand for no number.
    pub open spec fn is_no_number(self) -> bool {
        INFINITE < self.bits < NEGATIVE || self.bits > NEGATIVE + INFINITE
    }

    /// The fraction within the limits of a center column. The bits of
    /// numbers that are not negative are ordered as the numbers are.
    pub open spec fn within_limits(self) -> Fraction {
        if self.is_no_number() {
            self
        } else if self.bits >= NEGATIVE || self.bits < NARROWEST_CENTER {
            Fraction { bits: NARROWEST_CENTER }
        } else if self.bits > WIDEST_CENTER {
            Fraction { bits: WIDEST_CENTER }
        } else {
            self
        }
    }

    /// Clamps the fraction to what a center column takes.
    pub fn clamp_center(self) -> (clamped: Fraction)
        ensures
            clamped == self.within_limits(),
    {
        let no_number: bool = if self.bits >= NEGATIVE {
            self.bits - NEGATIVE > INFINITE
        } else {
            self.bits > INFINITE
        };
        if no_number {
            self
        } else if self.bits >= NEGATIVE || self.bits < NARROWEST_CENTER {
            Fraction { bits: NARROWEST_CENTER }
        } else if self.bits > WIDEST_CENTER {
            Fraction { bits: WIDEST_CENTER }
        } else {
            self
        }
    }
}

/// A column layout: the columns and the width of the center one.
#[derive(Debug, PartialEq, Eq)]
pub struct ColumnLayout {
    pub spec: String,
    pub center: Fraction,
}

/// How a workspace arranges its columns.
#[derive(Debug, Clone, Copy, PartialEq, Eq, Structural)]
pub enum ColumnsMode {
    /// The columns of the spec, left to right.
    MasterStackLeft,
    /// Windows dealt round-robin into equal columns.
    Grid,
    /// The columns of the spec, right to left.
    MasterStackRight,
}

/// A direction on the screen.
#[derive(Debug, Clone, Copy, PartialEq, Eq, Structural)]
pub enum Direction {
    Left,
    Right,
    Up,
    Down,
}

/// A descendant of a workspace.
#[derive(Debug, Clone, Copy, PartialEq, Eq, Structural)]
pub enum Container {
    /// A window that takes part in the layout.
    TilingWindow(ContainerId),
    /// A split, or a window outside the layout.
    Other(ContainerId),
}

/// A window that a command is about.
#[derive(Debug, Clone, Copy, PartialEq, Eq, Structural)]
pub enum WindowContainer {
    /// A window that takes part in the layout.
    TilingWindow(ContainerId),
    /// A floating, minimized or fullscreen window.
    NonTilingWindow(ContainerId),
}

/// A workspace.
#[derive(Debug)]
pub struct Workspace {
    /// The tiling windows by column, as the container tree has them.
    pub grid: ColumnGrid,
    /// The layout assigned to the workspace.
    pub columns: Option<ColumnLayout>,
    /// The designated occupant of the `C` column.
    pub master_window: Option<ContainerId>,
    /// How the columns are arranged.
    pub columns_mode: ColumnsMode,
    /// The descendants, most recently focused first.
    pub focus_order: Vec<Container>,
    /// The windows in the order in which they came, latest last.
    pub window_order: Vec<ContainerId>,
}

impl Workspace {
    /// This workspace with another designated master.
    pub open spec fn with_master(self, master: Option<ContainerId>) -> Workspace {
        Workspace { master_window: master, ..self }
    }

    /// This workspace once `window` gave up the master designation.
    pub open spec fn without_master(self, window: ContainerId) -> Workspace {
        if self.master_window == Some(window) {
            self.with_master(None)
        } else {
            self
        }
    }

    /// This workspace with other assigned columns.
    pub open spec fn with_columns(self, columns: Option<ColumnLayout>) -> Workspace {
        Workspace { columns, ..self }
    }

    /// This workspace in another mode.
    pub open spec fn with_mode(self, mode: ColumnsMode) -> Workspace {
        Workspace { columns_mode: mode, ..self }
    }

    /// This workspace with another window order.
    pub open spec fn with_order(self, window_order: Vec<ContainerId>) -> Workspace {
        Workspace { window_order, ..self }
    }

    /// Takes the master designation from `window`, so that the layout
    /// promotes the first remaining window in on-screen order instead of
    /// holding a dangling id.
    pub fn give_up_master(&mut self, window: ContainerId)
        ensures
            *final(self) == old(self).without_master(window),
    {
        if self.master_window == Some(window) {
            self.master_window = None;
        }
    }
}

/// Whether a window is on the screen.
#[derive(Debug, Clone, Copy, PartialEq, Eq, Structural)]
pub enum DisplayState {
    Shown,
    Showing,
    Hidden,
    Hiding,
}

/// How windows of other workspaces are kept off the screen.
#[derive(Debug, Clone, Copy, PartialEq, Eq, Structural)]
pub enum HideMethod {
    Hide,
    Cloak,
    PlaceInCorner,
}

/// A managed window.
#[derive(Debug, Clone, Copy, PartialEq, Eq, Structural)]
pub struct ManagedWindow {
    /// Its container.
    pub id: ContainerId,
    /// Its handle on the platform.
    pub native: WindowId,
    /// The index of its workspace.
    pub workspace: Option<usize>,
    /// Whether it is on the screen.
    pub display_state: DisplayState,
}

/// The state of the window manager.
#[derive(Debug)]
pub struct WmState {
    /// The managed windows.
    pub windows: Vec<ManagedWindow>,
    /// The workspaces.
    pub workspaces: Vec<Workspace>,
    /// The ids of the live containers.
    pub containers: Vec<ContainerId>,
    /// The focused container.
    pub focused_container: Option<ContainerId>,
    /// The window most recently swapped out of a center column.
    pub last_centered_out: Option<ContainerId>,
}

/// What a [`WmState`] holds.
#[verifier::ext_equal]
pub struct Wm {
    pub windows: Seq<ManagedWindow>,
    pub workspaces: Seq<Workspace>,
    pub containers: Seq<ContainerId>,
    pub focused_container: Option<ContainerId>,
    pub last_centered_out: Option<ContainerId>,
}

impl View for WmState {
    type V = Wm;

    open spec fn view(&self) -> Wm {
        Wm {
            windows: self.windows@,
            workspaces: self.workspaces@,
            containers: self.containers@,
            focused_container: self.focused_container,
            last_centered_out: self.last_centered_out,
        }
    }
}

impl Wm {
    /// Every window's workspace is one of the workspaces.
    pub open spec fn well_formed(self) -> bool {
        forall|i: int|
            0 <= i < self.windows.len() ==> (#[trigger] self.windows[i].workspace matches Some(
                workspace,
            ) ==> workspace < self.workspaces.len())
    }

    /// This state with another workspace at `index`.
    pub open spec fn with_workspace(self, index: int, workspace: Workspace) -> Wm {
        Wm { workspaces: self.workspaces.update(index, workspace), ..self }
    }
}

/// Whether a window has the handle `native`.
pub open spec fn has_native(native: WindowId) -> spec_fn(ManagedWindow) -> bool {
    |window: ManagedWindow| window.native == native
}

impl WmState {
    /// The index of the managed window with the handle `native`.
    pub fn window_from_native(&self, native: WindowId) -> (index: Option<usize>)
        ensures
            match index {
                Some(index) => first_index(self@.windows, has_native(native)) == Some(index as int),
                None => first_index(self@.windows, has_native(native)) is None,
            },
    {
        let mut i: usize = 0;
        while i < self.windows.len()
            invariant
                i <= self.windows.len(),
                forall|k: int| 0 <= k < i ==> !has_native(native)(#[trigger] self.windows@[k]),
            decreases self.windows.len() - i,
        {
            if self.windows[i].native == native {
                proof {
                    lemma_first_index_is(self.windows@, has_native(native), i as int);
                }
                return Some(i);
            }
            i += 1;
        }
        proof {
            lemma_first_index_none(self.windows@, has_native(native));
        }
        None
    }

    /// This state with another toggle target.
    pub open spec fn with_centered_out(self, window: Option<ContainerId>) -> WmState {
        WmState { last_centered_out: window, ..self }
    }
}

/// The index of the first item that is `wanted`.
pub open spec fn first_index<T>(items: Seq<T>, wanted: spec_fn(T) -> bool) -> Option<int>
    decreases items.len(),
{
    if items.len() == 0 {
        None
    } else {
        match first_index(items.drop_last(), wanted) {
            Some(index) => Some(index),
            None => if wanted(items.last()) {
                Some(items.len() - 1)
            } else {
                None
            },
        }
    }
}

/// The first index that is wanted has only unwanted items before it.
pub proof fn lemma_first_index<T>(items: Seq<T>, wanted: spec_fn(T) -> bool)
    ensures
        match first_index(items, wanted) {
            Some(index) => {
                &&& 0 <= index < items.len()
                &&& wanted(items[index])
                &&& forall|i: int| 0 <= i < index ==> !wanted(#[trigger] items[i])
            },
            None => forall|i: int| 0 <= i < items.len() ==> !wanted(#[trigger] items[i]),
        },
    decreases items.len(),
{
    if items.len() > 0 {
        let head = items.drop_last();
        lemma_first_index(head, wanted);
        match first_index(head, wanted) {
            Some(index) => {
                assert forall|i: int| 0 <= i < index implies !wanted(#[trigger] items[i]) by {
                    assert(head[i] == items[i]);
                }
            },
            None => {
                assert forall|i: int| 0 <= i < items.len() - 1 implies !wanted(
                    #[trigger] items[i],
                ) by {
                    assert(head[i] == items[i]);
                }
            },
        }
    }
}

/// The first index is where a wanted item stands behind unwanted ones.
pub proof fn lemma_first_index_is<T>(items: Seq<T>, wanted: spec_fn(T) -> bool, index: int)
    requires
        0 <= index < items.len(),
        wanted(items[index]),
        forall|i: int| 0 <= i < index ==> !wanted(#[trigger] items[i]),
    ensures
        first_index(items, wanted) == Some(index),
{
    lemma_first_index(items, wanted);
}

/// There is no first index where no item is wanted.
pub proof fn lemma_first_index_none<T>(items: Seq<T>, wanted: spec_fn(T) -> bool)
    requires
        forall|i: int| 0 <= i < items.len() ==> !wanted(#[trigger] items[i]),
    ensures
        first_index(items, wanted) is None,
{
    lemma_first_index(items, wanted);
}

/// Whether a container is `id`.
pub open spec fn is_id(id: ContainerId) -> spec_fn(ContainerId) -> bool {
    |window: ContainerId| window == id
}

/// The index of the first occurrence of `id`.
pub fn index_of(ids: &Vec<ContainerId>, id: ContainerId) -> (index: Option<usize>)
    ensures
        match index {
            Some(index) => first_index(ids@, is_id(id)) == Some(index as int),
            None => first_index(ids@, is_id(id)) is None,
        },
{
    let mut i: usize = 0;
    while i < ids.len()
        invariant
            i <= ids.len(),
            forall|k: int| 0 <= k < i ==> ids@[k] != id,
        decreases ids.len() - i,
    {
        if ids[i] == id {
            proof {
                lemma_first_index_is(ids@, is_id(id), i as int);
            }
            return Some(i);
        }
        i += 1;
    }
    proof {
        lemma_first_index_none(ids@, is_id(id));
    }
    None
}

/// A clamped fraction that is a number is between a tenth and nine tenths,
/// and it is the fraction itself where that is. A smaller one, and any
/// negative one, becomes a tenth, and a larger one nine tenths. What is no
/// number stays as it is.
pub proof fn clamping_stays_within_limits(fraction: Fraction)
    ensures
        ({
            let bits = fraction.bits;
            let clamped = fraction.within_limits().bits;
            let magnitude = if bits < 0x8000_0000 {
                bits as int
            } else {
                bits - 0x8000_0000
            };
            if magnitude > 0x7f80_0000 {
                clamped == bits
            } else {
                let tenth: u32 = 0x3dcc_cccd;
                let nine_tenths: u32 = 0x3f66_6666;
                &&& tenth <= clamped <= nine_tenths
                &&& tenth <= bits <= nine_tenths ==> clamped == bits
                &&& bits < tenth || bits >= 0x8000_0000 ==> clamped == tenth
                &&& nine_tenths < bits < 0x8000_0000 ==> clamped == nine_tenths
            }
        }),
{
}

} // verus!
