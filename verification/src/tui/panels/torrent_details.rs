//! A torrent shown in the details tabs.
use vstd::prelude::*;

use super::{Torrent, TorrentView};
use crate::tui::Renderable;

verus! {

/// A torrent shown in the details tabs.
pub struct TorrentDetails {
    torr: Torrent,
}

impl TorrentDetails {
    /// The torrent shown.
    pub closed spec fn torrent(&self) -> TorrentView {
        self.torr@
    }

    /// Shows `torr`.
    pub fn new(torr: Torrent) -> (r: TorrentDetails)
        ensures
            r.torrent() == torr@,
    {
        TorrentDetails { torr }
    }

    /// The torrent shown.
    pub fn inner(&self) -> (r: &Torrent)
        ensures
            r@ == self.torrent(),
    {
        &self.torr
    }

    /// The torrent shown, to change.
    pub fn inner_mut(&mut self) -> (r: &mut Torrent)
        ensures
            r@ == old(self).torrent(),
            final(self).torrent() == final(r)@,
    {
        &mut self.torr
    }

    /// Replaces the torrent shown.
    pub fn set_inner(&mut self, torr: Torrent)
        ensures
            final(self).torrent() == torr@,
    {
        self.torr = torr;
    }
}

impl Clone for TorrentDetails {
    fn clone(&self) -> (r: TorrentDetails)
        ensures
            r.torrent() == self.torrent(),
    {
        TorrentDetails { torr: self.torr.clone() }
    }
}

impl Renderable for TorrentDetails {
    /// The torrent's name, or its path where it has none.
    open spec fn title(&self) -> Seq<char> {
        match self.torrent().name {
            Some(n) => n,
            None => self.torrent().path,
        }
    }

    fn name(&self) -> (r: String) {
        match &self.torr.name {
            Some(n) => n.clone(),
            None => self.torr.path.clone(),
        }
    }
}

} // verus!
