//! The trace toolbar: its on/off buttons and the chosen wavelength.

use vstd::prelude::*;

verus! {

/// The toolbar buttons that switch something on or off.
pub enum ToolbarToggle {
    Grid,
    Markers,
    Legend,
    RouteScheme,
    Loupe,
    Bidirectional,
}

/// The state of the toolbar.
pub struct ToolbarState {
    pub grid_on: bool,
    pub markers_on: bool,
    pub legend_on: bool,
    pub route_scheme_on: bool,
    pub loupe_on: bool,
    pub bidirectional_on: bool,
    pub wavelength_nm: u16,
}

/// Whether button `t` is on in `s`.
pub open spec fn toggle_is_on(s: ToolbarState, t: ToolbarToggle) -> bool {
    match t {
        ToolbarToggle::Grid => s.grid_on,
        ToolbarToggle::Markers => s.markers_on,
        ToolbarToggle::Legend => s.legend_on,
        ToolbarToggle::RouteScheme => s.route_scheme_on,
        ToolbarToggle::Loupe => s.loupe_on,
        ToolbarToggle::Bidirectional => s.bidirectional_on,
    }
}

/// `s` with button `t` switched over.
pub open spec fn flipped(s: ToolbarState, t: ToolbarToggle) -> ToolbarState {
    match t {
        ToolbarToggle::Grid => ToolbarState { grid_on: !s.grid_on, ..s },
        ToolbarToggle::Markers => ToolbarState { markers_on: !s.markers_on, ..s },
        ToolbarToggle::Legend => ToolbarState { legend_on: !s.legend_on, ..s },
        ToolbarToggle::RouteScheme => ToolbarState { route_scheme_on: !s.route_scheme_on, ..s },
        ToolbarToggle::Loupe => ToolbarState { loupe_on: !s.loupe_on, ..s },
        ToolbarToggle::Bidirectional => ToolbarState { bidirectional_on: !s.bidirectional_on, ..s },
    }
}

impl ToolbarState {
    /// The grid on, every other button off, 1550 nm chosen.
    pub fn new() -> (s: ToolbarState)
        ensures
            s.grid_on,
            !s.markers_on,
            !s.legend_on,
            !s.route_scheme_on,
            !s.loupe_on,
            !s.bidirectional_on,
            s.wavelength_nm == 1550,
    {
        ToolbarState {
            grid_on: true,
            markers_on: false,
            legend_on: false,
            route_scheme_on: false,
            loupe_on: false,
            bidirectional_on: false,
            wavelength_nm: 1550,
        }
    }

    /// Whether button `t` is on.
    pub fn is_on(&self, t: ToolbarToggle) -> (r: bool)
        ensures
            r == toggle_is_on(*self, t),
    {
        match t {
            ToolbarToggle::Grid => self.grid_on,
            ToolbarToggle::Markers => self.markers_on,
            ToolbarToggle::Legend => self.legend_on,
            ToolbarToggle::RouteScheme => self.route_scheme_on,
            ToolbarToggle::Loupe => self.loupe_on,
            ToolbarToggle::Bidirectional => self.bidirectional_on,
        }
    }

    /// Button `t` is pressed: it alone switches over.
    pub fn toggle(&mut self, t: ToolbarToggle)
        ensures
            *final(self) == flipped(*old(self), t),
    {
        match t {
            ToolbarToggle::Grid => self.grid_on = !self.grid_on,
            ToolbarToggle::Markers => self.markers_on = !self.markers_on,
            ToolbarToggle::Legend => self.legend_on = !self.legend_on,
            ToolbarToggle::RouteScheme => self.route_scheme_on = !self.route_scheme_on,
            ToolbarToggle::Loupe => self.loupe_on = !self.loupe_on,
            ToolbarToggle::Bidirectional => self.bidirectional_on = !self.bidirectional_on,
        }
    }

    /// A wavelength button is pressed: `nm` is chosen, the other buttons stay.
    pub fn select_wavelength(&mut self, nm: u16)
        ensures
            *final(self) == (ToolbarState { wavelength_nm: nm, ..*old(self) }),
    {
        self.wavelength_nm = nm;
    }

    /// Whether the wavelength button for `nm` is the chosen one.
    pub fn is_wavelength(&self, nm: u16) -> (r: bool)
        ensures
            r == (self.wavelength_nm == nm),
    {
        self.wavelength_nm == nm
    }
}

} // verus!
