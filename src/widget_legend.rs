//! The legend panel of key bindings: its labels and whether it is hidden.

use vstd::prelude::*;

verus! {

/// The legend's state: the titles to show when hidden and when shown, and
/// whether it is hidden.
#[derive(Debug)]
pub struct LegendWidget {
    pub label_show: String,
    pub label_hide: String,
    pub hide: bool,
}

impl LegendWidget {
    /// A shown legend without labels.
    pub fn new() -> (r: Self)
        ensures
            r.label_show@.len() == 0,
            r.label_hide@.len() == 0,
            !r.hide,
    {
        LegendWidget { label_show: String::new(), label_hide: String::new(), hide: false }
    }

    /// The title: the label that offers to show the legend where it is
    /// hidden, the one that offers to hide it where it is shown.
    pub fn title(&self) -> (r: &str)
        ensures
            r@ == if self.hide { self.label_show@ } else { self.label_hide@ },
    {
        if self.hide {
            self.label_show.as_str()
        } else {
            self.label_hide.as_str()
        }
    }

    /// Shows a hidden legend, hides a shown one.
    pub fn toggle(&mut self)
        ensures
            final(self).hide == !old(self).hide,
            final(self).label_show == old(self).label_show,
            final(self).label_hide == old(self).label_hide,
    {
        self.hide = !self.hide;
    }

    /// Columns left for the command line beside the legend: the frame's
    /// columns less the legend's, all of them where the legend is hidden or
    /// wider than the frame.
    pub fn remaining_cols(&self, frame_cols: usize, legend_cols: usize) -> (r: usize)
        ensures
            r == if !self.hide && legend_cols <= frame_cols { (frame_cols - legend_cols) as usize } else { frame_cols },
    {
        if self.hide {
            return frame_cols;
        }
        if legend_cols <= frame_cols {
            frame_cols - legend_cols
        } else {
            frame_cols
        }
    }
}

} // verus!
