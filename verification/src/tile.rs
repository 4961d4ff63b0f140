//! One of the four byte streams that make up a composite image.

use vstd::prelude::*;

verus! {

/// A tile as contracts see it.
pub struct TileView {
    /// The content length that the response declared.
    pub total: nat,
    /// The bytes received so far, in the order of their arrival.
    pub data: Seq<u8>,
    /// Whether the stream has ended.
    pub is_finished: bool,
}

impl TileView {
    /// The number of bytes received so far.
    pub open spec fn downloaded(self) -> nat {
        self.data.len()
    }

    /// A tile of declared length `total` before its first byte.
    pub open spec fn fresh(total: nat) -> TileView {
        TileView { total, data: Seq::empty(), is_finished: false }
    }

    /// The tile after `chunk` arrived.
    pub open spec fn extended(self, chunk: Seq<u8>) -> TileView {
        TileView { data: self.data + chunk, ..self }
    }

    /// The tile after its stream ended.
    pub open spec fn closed(self) -> TileView {
        TileView { is_finished: true, ..self }
    }
}

/// The record of one tile's transfer: what was declared, what has arrived,
/// and whether the stream has ended. The byte count always equals the
/// length of the buffer.
#[derive(Debug)]
pub struct DownloadItem {
    total: u64,
    downloaded: u64,
    data: Vec<u8>,
    is_finished: bool,
}

impl DownloadItem {
    #[verifier::type_invariant]
    spec fn count_matches_buffer(&self) -> bool {
        self.downloaded == self.data@.len()
    }

    /// Starts the record of a tile whose response declared `total` bytes.
    /// Room for that many bytes is set aside where the machine grants it.
    pub fn new(total: u64) -> (item: DownloadItem)
        ensures
            item@ == TileView::fresh(total as nat),
    {
        let mut data: Vec<u8> = Vec::new();
        if total <= usize::MAX as u64 {
            let _ = data.try_reserve(total as usize);
        }
        DownloadItem { total, downloaded: 0, data, is_finished: false }
    }

    /// The content length that the response declared.
    pub fn total(&self) -> (total: u64)
        ensures
            total == self@.total,
    {
        self.total
    }

    /// The number of bytes received so far.
    pub fn downloaded(&self) -> (downloaded: u64)
        ensures
            downloaded == self@.downloaded(),
    {
        proof {
            use_type_invariant(self);
        }
        self.downloaded
    }

    /// The bytes received so far.
    pub fn data(&self) -> (data: &Vec<u8>)
        ensures
            data@ == self@.data,
    {
        &self.data
    }

    /// Whether the stream has ended.
    pub fn is_finished(&self) -> (finished: bool)
        ensures
            finished == self@.is_finished,
    {
        self.is_finished
    }

    /// Takes in the next chunk of the stream.
    pub fn push_chunk(&mut self, chunk: Vec<u8>)
        ensures
            final(self)@ == old(self)@.extended(chunk@),
    {
        let mut item = DownloadItem::new(0);
        core::mem::swap(self, &mut item);
        proof {
            use_type_invariant(&item);
        }
        let DownloadItem { total, downloaded, data, is_finished } = item;
        let mut data = data;
        let mut chunk = chunk;
        let added: usize = chunk.len();
        data.append(&mut chunk);
        let length: usize = data.len();
        assert(downloaded + added == length);
        *self = DownloadItem { total, downloaded: downloaded + added as u64, data, is_finished };
    }

    /// Records that the stream has ended.
    pub fn finish(&mut self)
        ensures
            final(self)@ == old(self)@.closed(),
    {
        proof {
            use_type_invariant(&*self);
        }
        self.is_finished = true;
    }

    /// Gives up the record for the bytes it gathered.
    pub fn into_data(self) -> (data: Vec<u8>)
        ensures
            data@ == self@.data,
    {
        self.data
    }
}

impl View for DownloadItem {
    type V = TileView;

    closed spec fn view(&self) -> TileView {
        TileView { total: self.total as nat, data: self.data@, is_finished: self.is_finished }
    }
}

} // verus!
