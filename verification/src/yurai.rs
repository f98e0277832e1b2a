//! Who a pane belongs to: the provenance that is stamped on everything it
//! produces.
use vstd::prelude::*;

verus! {

/// The provenance of a pane, for its whole life.
#[derive(Debug, PartialEq, Eq)]
pub enum Yurai {
    /// Nobody attested it.
    Unknown,
    /// An operator's own connection.
    Human,
    /// A connection that declared itself automation, with the label it gave.
    Automation { label: Option<String> },
}

/// The contents of a [`Yurai`].
#[verifier::ext_equal]
pub enum YuraiView {
    Unknown,
    Human,
    Automation { label: Option<Seq<char>> },
}

impl YuraiView {
    pub open spec fn is_automation(self) -> bool {
        self is Automation
    }
}

/// The characters of an optional string.
pub open spec fn opt_text(s: Option<String>) -> Option<Seq<char>> {
    match s {
        Some(t) => Some(t@),
        None => None,
    }
}

/// A copy of an optional string.
pub fn clone_opt(s: &Option<String>) -> (r: Option<String>)
    ensures
        opt_text(r) == opt_text(*s),
{
    match s {
        Some(t) => Some(t.clone()),
        None => None,
    }
}

impl View for Yurai {
    type V = YuraiView;

    open spec fn view(&self) -> YuraiView {
        match self {
            Yurai::Unknown => YuraiView::Unknown,
            Yurai::Human => YuraiView::Human,
            Yurai::Automation { label } => YuraiView::Automation { label: opt_text(*label) },
        }
    }
}

impl Default for Yurai {
    fn default() -> (r: Yurai)
        ensures
            r@ == YuraiView::Unknown,
    {
        Yurai::Unknown
    }
}

impl Clone for Yurai {
    fn clone(&self) -> (r: Yurai)
        ensures
            r@ == self@,
    {
        match self {
            Yurai::Unknown => Yurai::Unknown,
            Yurai::Human => Yurai::Human,
            Yurai::Automation { label } => Yurai::Automation { label: clone_opt(label) },
        }
    }
}

impl Yurai {
    pub fn is_automation(&self) -> (b: bool)
        ensures
            b == self@.is_automation(),
    {
        match self {
            Yurai::Automation { .. } => true,
            _ => false,
        }
    }

    pub fn is_unknown(&self) -> (b: bool)
        ensures
            b == (self@ == YuraiView::Unknown),
    {
        match self {
            Yurai::Unknown => true,
            _ => false,
        }
    }
}

} // verus!
