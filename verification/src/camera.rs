//! The state of an orbit camera: where it stands, what it looks at, whether
//! the view changed, and the switch to a bird's-eye view and back.
//!
//! The camera is generic in the type of its points, `P`, and of its radii,
//! `R`: it never computes with either, it moves them about.

use vstd::prelude::*;

verus! {

/// An orbit camera: it stands at `eye`, at the distance `current_radius` from
/// the `center` that it looks at.
pub struct Camera<P, R> {
    /// Where the camera stands.
    pub eye: P,
    /// What the camera looks at.
    pub center: P,
    /// The upward direction.
    pub up: P,
    /// Whether the view changed since `check_if_changed` was last called.
    pub has_changed: bool,
    /// Whether the camera shows the bird's-eye view.
    pub is_bird_view: bool,
    pub bird_view_eye: P,
    pub bird_view_center: P,
    /// The eye and the centre to return to from the bird's-eye view.
    pub cache_eye_view: P,
    pub cache_center_view: P,
    /// The least and the greatest distance allowed between eye and centre,
    /// and the distance now.
    pub min_radius: R,
    pub max_radius: R,
    pub current_radius: R,
}

impl<P: Copy, R> Camera<P, R> {
    /// The camera after the switch between the two views. Entering the
    /// bird's-eye view saves eye and centre; leaving it brings them back.
    pub open spec fn toggled(self) -> Self {
        if self.is_bird_view {
            Camera {
                eye: self.cache_eye_view,
                center: self.cache_center_view,
                is_bird_view: false,
                has_changed: true,
                ..self
            }
        } else {
            Camera {
                cache_eye_view: self.eye,
                cache_center_view: self.center,
                eye: self.bird_view_eye,
                center: self.bird_view_center,
                is_bird_view: true,
                has_changed: true,
                ..self
            }
        }
    }

    /// A camera in the normal view, marked as changed.
    pub fn new(
        eye: P,
        center: P,
        up: P,
        min_radius: R,
        max_radius: R,
        current_radius: R,
        bird_view_eye: P,
        bird_view_center: P,
    ) -> (camera: Self)
        ensures
            camera == (Camera {
                eye,
                center,
                up,
                has_changed: true,
                is_bird_view: false,
                bird_view_eye,
                bird_view_center,
                cache_eye_view: eye,
                cache_center_view: center,
                min_radius,
                max_radius,
                current_radius,
            }),
    {
        Camera {
            eye,
            center,
            up,
            has_changed: true,
            is_bird_view: false,
            bird_view_eye,
            bird_view_center,
            cache_center_view: center,
            cache_eye_view: eye,
            min_radius,
            max_radius,
            current_radius,
        }
    }

    /// Whether the view changed since the last call. The call forgets the
    /// change: a second call returns `false` unless the view changed again.
    pub fn check_if_changed(&mut self) -> (changed: bool)
        ensures
            changed == old(self).has_changed,
            *final(self) == (Camera { has_changed: false, ..*old(self) }),
    {
        if self.has_changed {
            self.has_changed = false;
            true
        } else {
            false
        }
    }

    /// Switches between the normal view and the bird's-eye view.
    pub fn toogle_bird_view(&mut self)
        ensures
            *final(self) == old(self).toggled(),
    {
        if self.is_bird_view {
            self.eye = self.cache_eye_view;
            self.center = self.cache_center_view;
            self.is_bird_view = false;
        } else {
            self.cache_eye_view = self.eye;
            self.cache_center_view = self.center;

            self.eye = self.bird_view_eye;
            self.center = self.bird_view_center;
            self.is_bird_view = true;
        }
        self.has_changed = true;
    }

    /// Switching the view twice brings eye and centre back exactly, and the
    /// view with them. This holds of a camera in the normal view, and of one
    /// in the bird's-eye view that has not moved within it.
    pub proof fn lemma_toggle_twice_restores(self)
        requires
            self.is_bird_view ==> self.eye == self.bird_view_eye && self.center
                == self.bird_view_center,
        ensures
            self.toggled().toggled().eye == self.eye,
            self.toggled().toggled().center == self.center,
            self.toggled().toggled().up == self.up,
            self.toggled().toggled().is_bird_view == self.is_bird_view,
    {
    }
}

} // verus!
