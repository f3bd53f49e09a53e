//! Replaying archived vehicle positions for training: which archive file to
//! fetch next, and which of its rows become vehicle events.

use vstd::prelude::*;
use crate::features::METRO_ROUTE_TYPE;
use crate::vehicle::{Vehicle, VehicleView, clone_opt_string, opt_view};

verus! {

/// An archived file in cloud storage.
#[derive(Debug)]
pub struct FileInfo {
    bucket: String,
    name: String,
}

impl FileInfo {
    pub fn new(bucket: String, name: String) -> (r: Self)
        ensures
            r.bucket_view() == bucket@,
            r.name_view() == name@,
    {
        FileInfo { bucket, name }
    }

    pub closed spec fn bucket_view(&self) -> Seq<char> {
        self.bucket@
    }

    pub closed spec fn name_view(&self) -> Seq<char> {
        self.name@
    }

    pub fn bucket(&self) -> (r: &String)
        ensures
            r@ == self.bucket_view(),
    {
        &self.bucket
    }

    pub fn name(&self) -> (r: &String)
        ensures
            r@ == self.name_view(),
    {
        &self.name
    }

    fn copy(&self) -> (r: Self)
        ensures
            r.bucket_view() == self.bucket_view(),
            r.name_view() == self.name_view(),
    {
        FileInfo { bucket: self.bucket.clone(), name: self.name.clone() }
    }
}

/// The archive listing collected page by page: each page's files are
/// appended in order, and the listing is complete once a page comes without
/// a token for a next page.
pub struct FileListing {
    files: Vec<FileInfo>,
    page_token: Option<String>,
}

impl FileListing {
    /// The files listed so far, in page order.
    pub closed spec fn listed(&self) -> Seq<FileInfo> {
        self.files@
    }

    /// The token of the next page to fetch, if any.
    pub closed spec fn token(&self) -> Option<Seq<char>> {
        opt_view(self.page_token)
    }

    /// The listing after its first page.
    pub fn first_page(files: Vec<FileInfo>, next: Option<String>) -> (r: Self)
        ensures
            r.listed() == files@,
            r.token() == opt_view(next),
    {
        FileListing { files, page_token: next }
    }

    /// Whether every page has been fetched.
    pub fn is_complete(&self) -> (r: bool)
        ensures
            r == self.token() is None,
    {
        self.page_token.is_none()
    }

    /// The token with which to fetch the next page.
    pub fn next_page(&self) -> (r: Option<String>)
        ensures
            opt_view(r) == self.token(),
    {
        clone_opt_string(&self.page_token)
    }

    /// Adds a fetched page: its files go after those listed so far, and its
    /// token replaces the old one.
    pub fn add_page(&mut self, files: Vec<FileInfo>, next: Option<String>)
        ensures
            final(self).listed() == old(self).listed() + files@,
            final(self).token() == opt_view(next),
    {
        let mut files = files;
        self.files.append(&mut files);
        self.page_token = next;
    }

    /// The files of the listing, in page order.
    pub fn into_files(self) -> (r: Vec<FileInfo>)
        ensures
            r@ == self.listed(),
    {
        self.files
    }
}

/// A row of an archived position file. `lng` and `lat` are `f32` bit
/// patterns.
#[derive(Debug)]
pub struct CsvVehicle {
    pub id: String,
    pub lng: u32,
    pub lat: u32,
    pub timestamp: u64,
    pub trip_id: Option<String>,
    pub route_type: Option<u64>,
    pub agency_name: Option<String>,
    pub route_short_name: Option<String>,
    pub route_long_name: Option<String>,
    pub trip_headsign: Option<String>,
    pub shape_id: Option<u64>,
    pub direction_id: Option<u32>,
}

/// The vehicle event replayed from an archived row: its id, position, time
/// and trip, without metadata.
pub open spec fn replayed_vehicle(row: CsvVehicle, v: VehicleView) -> bool {
    &&& v.id == row.id@
    &&& v.lng == row.lng
    &&& v.lat == row.lat
    &&& v.timestamp == row.timestamp
    &&& v.trip_id == opt_view(row.trip_id)
    &&& v.metadata is None
    &&& v.delay is None
    &&& v.stop_seq is None
}

/// The rows of metro vehicles, in order.
pub open spec fn metro_rows(rows: Seq<CsvVehicle>) -> Seq<CsvVehicle>
    decreases rows.len(),
{
    if rows.len() == 0 {
        Seq::<CsvVehicle>::empty()
    } else if rows.last().route_type == Some(METRO_ROUTE_TYPE) {
        metro_rows(rows.drop_last()).push(rows.last())
    } else {
        metro_rows(rows.drop_last())
    }
}

/// What the replay client does next.
pub enum NextFile {
    /// Download and replay this file.
    Download(FileInfo),
    /// Every file has been replayed.
    Finished,
    /// The index ran one past the last file: processing aborts here.
    Abort,
}

/// Continuously replays archived training data, file by file.
pub struct TrainingDataClient {
    file_index: usize,
    files: Vec<FileInfo>,
}

impl TrainingDataClient {
    pub closed spec fn index(&self) -> nat {
        self.file_index as nat
    }

    pub closed spec fn file_count(&self) -> nat {
        self.files@.len()
    }

    pub closed spec fn file_at(&self, i: int) -> FileInfo {
        self.files@[i]
    }

    /// A client over the listed files, starting at `file_index`.
    pub fn init(file_index: usize, files: Vec<FileInfo>) -> (r: Self)
        ensures
            r.index() == file_index,
            r.file_count() == files@.len(),
            forall|i: int| 0 <= i < files@.len() ==> r.file_at(i) == files@[i],
    {
        TrainingDataClient { file_index, files }
    }

    /// A client that replays all listed files.
    pub fn default(files: Vec<FileInfo>) -> (r: Self)
        ensures
            r.index() == 0,
            r.file_count() == files@.len(),
            forall|i: int| 0 <= i < files@.len() ==> r.file_at(i) == files@[i],
    {
        Self::init(0, files)
    }

    /// The next step: the file at the current index while there is one,
    /// `Abort` at one past the last file (the replay loop runs while the
    /// index is at most the file count and then indexes the file list), and
    /// `Finished` beyond.
    pub fn next_file(&self) -> (r: NextFile)
        ensures
            self.index() < self.file_count() ==> (r matches NextFile::Download(f) && f.bucket_view()
                == self.file_at(self.index() as int).bucket_view() && f.name_view() == self.file_at(
                self.index() as int,
            ).name_view()),
            self.index() == self.file_count() ==> r is Abort,
            self.index() > self.file_count() ==> r is Finished,
    {
        if self.file_index < self.files.len() {
            NextFile::Download(self.files[self.file_index].copy())
        } else if self.file_index == self.files.len() {
            NextFile::Abort
        } else {
            NextFile::Finished
        }
    }

    /// Moves on to the next file once the current one has been replayed.
    pub fn advance(&mut self)
        requires
            old(self).index() < old(self).file_count(),
        ensures
            final(self).index() == old(self).index() + 1,
            final(self).file_count() == old(self).file_count(),
            forall|i: int| 0 <= i < old(self).file_count() ==> final(self).file_at(i) == old(self).file_at(i),
    {
        let n = self.files.len();
        assert(self.file_index < n);
        self.file_index = self.file_index + 1;
    }

    /// The vehicle events replayed from a file's rows: only metro rows, in
    /// order, as vehicles without metadata.
    pub fn metro_vehicles(rows: &Vec<CsvVehicle>) -> (r: Vec<Vehicle>)
        ensures
            r@.len() == metro_rows(rows@).len(),
            forall|i: int| 0 <= i < r@.len() ==> replayed_vehicle(metro_rows(rows@)[i], #[trigger] r@[i]@),
    {
        let mut out: Vec<Vehicle> = Vec::new();
        let mut i: usize = 0;
        while i < rows.len()
            invariant
                i <= rows.len(),
                out@.len() == metro_rows(rows@.take(i as int)).len(),
                forall|k: int| 0 <= k < out@.len() ==> replayed_vehicle(metro_rows(rows@.take(i as int))[k], #[trigger] out@[k]@),
            decreases rows.len() - i,
        {
            let row = &rows[i];
            assert(rows@.take(i + 1).drop_last() == rows@.take(i as int));
            assert(rows@.take(i + 1).last() == rows@[i as int]);
            let metro = match row.route_type {
                Some(t) => t == METRO_ROUTE_TYPE,
                None => false,
            };
            if metro {
                out.push(Vehicle {
                    id: row.id.clone(),
                    lng: row.lng,
                    lat: row.lat,
                    timestamp: row.timestamp,
                    trip_id: clone_opt_string(&row.trip_id),
                    metadata: None,
                    delay: None,
                    stop_seq: None,
                });
            }
            i = i + 1;
        }
        assert(rows@.take(rows.len() as int) == rows@);
        out
    }
}

} // verus!
