//! Moving the posts of a checkpoint, in which they are kept by link, into the rows of a table.

use vstd::prelude::*;
use vstd::string::*;

use crate::text::{parse_number, parsed_number};

verus! {

/// One post of a link in a checkpoint.
pub struct SavedPostView {
    pub user_id: Seq<char>,
    pub posted_at: Seq<char>,
}

/// One post of a link in a checkpoint: who posted it and when.
pub struct SavedPost {
    pub user_id: String,
    pub posted_at: String,
}

impl View for SavedPost {
    type V = SavedPostView;

    open spec fn view(&self) -> SavedPostView {
        SavedPostView { user_id: self.user_id@, posted_at: self.posted_at@ }
    }
}

/// A link in a checkpoint.
pub struct SavedLinkView {
    pub url: Seq<char>,
    pub posts: Seq<SavedPostView>,
}

/// A link in a checkpoint, with its posts.
pub struct SavedLink {
    pub url: String,
    pub posts: Vec<SavedPost>,
}

impl View for SavedLink {
    type V = SavedLinkView;

    open spec fn view(&self) -> SavedLinkView {
        SavedLinkView { url: self.url@, posts: self.posts@.map_values(|p: SavedPost| p@) }
    }
}

/// A row to be stored.
pub struct SavedRowView {
    pub url: Seq<char>,
    pub user_id: Seq<char>,
    pub posted_at: Seq<char>,
}

/// A row to be stored.
pub struct SavedRow {
    pub url: String,
    pub user_id: String,
    pub posted_at: String,
}

impl View for SavedRow {
    type V = SavedRowView;

    open spec fn view(&self) -> SavedRowView {
        SavedRowView { url: self.url@, user_id: self.user_id@, posted_at: self.posted_at@ }
    }
}

/// The views of the links of a checkpoint.
pub open spec fn link_views(v: Seq<SavedLink>) -> Seq<SavedLinkView> {
    v.map_values(|l: SavedLink| l@)
}

/// The views of a list of rows.
pub open spec fn saved_row_views(v: Seq<SavedRow>) -> Seq<SavedRowView> {
    v.map_values(|r: SavedRow| r@)
}

/// The row for a post of a link.
pub open spec fn saved_row(url: Seq<char>, p: SavedPostView) -> SavedRowView {
    SavedRowView { url, user_id: p.user_id, posted_at: p.posted_at }
}

/// The rows for the posts of one link.
pub open spec fn rows_of_link(l: SavedLinkView) -> Seq<SavedRowView> {
    l.posts.map_values(|p: SavedPostView| saved_row(l.url, p))
}

/// The rows for all posts, link by link.
pub open spec fn rows_of_links(links: Seq<SavedLinkView>) -> Seq<SavedRowView>
    decreases links.len(),
{
    if links.len() == 0 {
        seq![]
    } else {
        rows_of_links(links.drop_last()) + rows_of_link(links.last())
    }
}

/// Makes a row of each post.
pub fn migrated_rows(links: &Vec<SavedLink>) -> (r: Vec<SavedRow>)
    ensures
        saved_row_views(r@) == rows_of_links(link_views(links@)),
{
    let ghost all = link_views(links@);
    let mut out: Vec<SavedRow> = Vec::new();
    assert(saved_row_views(out@) =~= seq![]);
    let mut i: usize = 0;
    while i < links.len()
        invariant
            i <= links@.len(),
            all == link_views(links@),
            saved_row_views(out@) == rows_of_links(all.take(i as int)),
        decreases links@.len() - i,
    {
        let link = &links[i];
        let ghost before = saved_row_views(out@);
        let ghost rows = rows_of_link(link@);
        let mut j: usize = 0;
        assert(rows.take(0) =~= seq![]);
        while j < link.posts.len()
            invariant
                j <= link.posts@.len(),
                rows == rows_of_link(link@),
                saved_row_views(out@) =~= before + rows.take(j as int),
            decreases link.posts@.len() - j,
        {
            let post = &link.posts[j];
            let row = SavedRow {
                url: link.url.clone(),
                user_id: post.user_id.clone(),
                posted_at: post.posted_at.clone(),
            };
            assert(link@.posts[j as int] == post@);
            assert(row@ == rows[j as int]);
            let ghost was = saved_row_views(out@);
            out.push(row);
            assert(saved_row_views(out@) =~= was.push(rows[j as int]));
            assert(rows.take(j + 1) =~= rows.take(j as int).push(rows[j as int]));
            j = j + 1;
        }
        assert(rows.take(j as int) =~= rows);
        assert(all.take(i + 1).drop_last() =~= all.take(i as int));
        assert(all.take(i + 1).last() == link@);
        i = i + 1;
    }
    assert(all.take(i as int) =~= all);
    out
}

/// A row to be stored, with the number of the user.
pub struct NumberedRowView {
    pub url: Seq<char>,
    pub user_id: u64,
    pub posted_at: Seq<char>,
}

/// A row to be stored, with the number of the user.
pub struct NumberedRow {
    pub url: String,
    pub user_id: u64,
    pub posted_at: String,
}

impl View for NumberedRow {
    type V = NumberedRowView;

    open spec fn view(&self) -> NumberedRowView {
        NumberedRowView { url: self.url@, user_id: self.user_id, posted_at: self.posted_at@ }
    }
}

/// The views of a list of rows.
pub open spec fn numbered_row_views(v: Seq<NumberedRow>) -> Seq<NumberedRowView> {
    v.map_values(|r: NumberedRow| r@)
}

/// How many rows stand before the first, from `i` on, whose user is no number.
pub open spec fn readable_rows(rows: Seq<SavedRowView>, i: int) -> int
    decreases rows.len() - i,
{
    if 0 <= i < rows.len() && parsed_number(rows[i].user_id) is Some {
        readable_rows(rows, i + 1)
    } else {
        i
    }
}

/// A row with the number of its user.
pub open spec fn numbered_row(r: SavedRowView) -> NumberedRowView {
    NumberedRowView { url: r.url, user_id: parsed_number(r.user_id)->0, posted_at: r.posted_at }
}

/// The rows that are stored before the first user that is no number.
pub open spec fn numbered_rows(rows: Seq<SavedRowView>) -> Seq<NumberedRowView> {
    rows.take(readable_rows(rows, 0)).map_values(|r: SavedRowView| numbered_row(r))
}

/// The first user that is no number, if there is one.
pub open spec fn unreadable_user(rows: Seq<SavedRowView>) -> Option<Seq<char>> {
    if readable_rows(rows, 0) < rows.len() {
        Some(rows[readable_rows(rows, 0)].user_id)
    } else {
        None
    }
}

/// The rows up to the first user that is no number lie inside the list, and all their users are
/// numbers.
pub proof fn readable_rows_bounds(rows: Seq<SavedRowView>, i: int)
    requires
        0 <= i <= rows.len(),
    ensures
        i <= readable_rows(rows, i) <= rows.len(),
        forall|j: int|
            i <= j < readable_rows(rows, i) ==> parsed_number((#[trigger] rows[j]).user_id) is Some,
        readable_rows(rows, i) < rows.len() ==> parsed_number(
            rows[readable_rows(rows, i)].user_id,
        ) is None,
    decreases rows.len() - i,
{
    if i < rows.len() && parsed_number(rows[i].user_id) is Some {
        readable_rows_bounds(rows, i + 1);
    }
}

/// Reads the numbers of the users, up to the first that is none, which is returned with the rows.
pub fn number_rows(rows: &Vec<SavedRow>) -> (r: (Vec<NumberedRow>, Option<String>))
    ensures
        numbered_row_views(r.0@) == numbered_rows(saved_row_views(rows@)),
        crate::links::text_of(r.1) == unreadable_user(saved_row_views(rows@)),
{
    let ghost views = saved_row_views(rows@);
    proof {
        readable_rows_bounds(views, 0);
    }
    let ghost end = readable_rows(views, 0);
    let ghost wanted = numbered_rows(views);
    let mut out: Vec<NumberedRow> = Vec::new();
    let mut i: usize = 0;
    while i < rows.len()
        invariant
            i <= rows@.len(),
            i <= end <= rows@.len(),
            views == saved_row_views(rows@),
            end == readable_rows(views, 0),
            end == readable_rows(views, i as int),
            wanted == numbered_rows(views),
            out@.len() == i,
            forall|j: int| 0 <= j < i ==> (#[trigger] out@[j])@ == wanted[j],
        decreases rows@.len() - i,
    {
        assert(views[i as int] == rows@[i as int]@);
        match parse_number(rows[i].user_id.as_str()) {
            Some(user_id) => {
                proof {
                    readable_rows_bounds(views, i + 1);
                }
                let row = NumberedRow {
                    url: rows[i].url.clone(),
                    user_id,
                    posted_at: rows[i].posted_at.clone(),
                };
                assert(row@ == wanted[i as int]);
                out.push(row);
            },
            None => {
                assert(numbered_row_views(out@) =~= wanted);
                return (out, Some(rows[i].user_id.clone()));
            },
        }
        i = i + 1;
    }
    assert(numbered_row_views(out@) =~= wanted);
    (out, None)
}

/// How many posts a checkpoint holds.
pub open spec fn saved_posts(links: Seq<SavedLinkView>) -> nat
    decreases links.len(),
{
    if links.len() == 0 {
        0
    } else {
        saved_posts(links.drop_last()) + links.last().posts.len()
    }
}

/// Each post of a checkpoint becomes one row: there are as many rows as posts.
pub proof fn one_row_for_each_post(links: Seq<SavedLinkView>)
    ensures
        rows_of_links(links).len() == saved_posts(links),
    decreases links.len(),
{
    if links.len() > 0 {
        one_row_for_each_post(links.drop_last());
    }
}

/// Every post of a checkpoint is found again among the rows.
pub proof fn every_post_is_migrated(links: Seq<SavedLinkView>, i: int, j: int)
    requires
        0 <= i < links.len(),
        0 <= j < links[i].posts.len(),
    ensures
        rows_of_links(links).contains(saved_row(links[i].url, links[i].posts[j])),
    decreases links.len(),
{
    let row = saved_row(links[i].url, links[i].posts[j]);
    let front = rows_of_links(links.drop_last());
    if i == links.len() - 1 {
        assert(rows_of_link(links.last())[j] == row);
        assert(rows_of_links(links)[front.len() + j] == row);
    } else {
        assert(links.drop_last()[i] == links[i]);
        every_post_is_migrated(links.drop_last(), i, j);
        let k = front.index_of(row);
        assert(rows_of_links(links)[k] == row);
    }
}

/// Every row is that of a post of the checkpoint.
pub proof fn nothing_else_is_migrated(links: Seq<SavedLinkView>, k: int)
    requires
        0 <= k < rows_of_links(links).len(),
    ensures
        exists|i: int, j: int|
            0 <= i < links.len() && 0 <= j < links[i].posts.len() && rows_of_links(links)[k]
                == saved_row(links[i].url, #[trigger] links[i].posts[j]),
    decreases links.len(),
{
    let front = rows_of_links(links.drop_last());
    if k < front.len() {
        nothing_else_is_migrated(links.drop_last(), k);
        let (i, j) = choose|i: int, j: int|
            0 <= i < links.drop_last().len() && 0 <= j < links.drop_last()[i].posts.len()
                && front[k] == saved_row(
                links.drop_last()[i].url,
                #[trigger] links.drop_last()[i].posts[j],
            );
        assert(links.drop_last()[i] == links[i]);
        assert(rows_of_links(links)[k] == saved_row(links[i].url, links[i].posts[j]));
    } else {
        let i = links.len() - 1;
        let j = k - front.len();
        assert(rows_of_links(links)[k] == saved_row(links[i].url, links[i].posts[j]));
    }
}

/// Where all users are numbers, every row is stored, with the number of its user.
pub proof fn numbered_users_are_all_stored(rows: Seq<SavedRowView>)
    requires
        forall|i: int| 0 <= i < rows.len() ==> parsed_number((#[trigger] rows[i]).user_id) is Some,
    ensures
        unreadable_user(rows) is None,
        numbered_rows(rows) == rows.map_values(|r: SavedRowView| numbered_row(r)),
{
    readable_rows_bounds(rows, 0);
    assert(rows.take(readable_rows(rows, 0)) =~= rows);
}

/// What there is to do for a migration.
pub enum MigrationStep {
    /// There is no checkpoint.
    NoCheckpoint,
    /// The database is there already.
    AlreadyDone,
    /// The rows are to be moved.
    Migrate,
}

/// What there is to do, given whether there is a checkpoint and whether there is a database.
pub fn migration_step(checkpoint: bool, database: bool) -> (r: MigrationStep)
    ensures
        r == if !checkpoint {
            MigrationStep::NoCheckpoint
        } else if database {
            MigrationStep::AlreadyDone
        } else {
            MigrationStep::Migrate
        },
{
    if !checkpoint {
        MigrationStep::NoCheckpoint
    } else if database {
        MigrationStep::AlreadyDone
    } else {
        MigrationStep::Migrate
    }
}

impl MigrationStep {
    /// What is said before the work, where there is nothing to do.
    pub open spec fn notice_text(self) -> Option<Seq<char>> {
        match self {
            MigrationStep::NoCheckpoint => Some("No checkpoint.json found, nothing to migrate"@),
            MigrationStep::AlreadyDone => Some(
                "Database already exists, migration already completed"@,
            ),
            MigrationStep::Migrate => None,
        }
    }

    /// What is said before the work, where there is nothing to do.
    pub fn notice(&self) -> (r: Option<String>)
        ensures
            crate::links::text_of(r) == self.notice_text(),
    {
        match self {
            MigrationStep::NoCheckpoint => Some(
                "No checkpoint.json found, nothing to migrate".to_owned(),
            ),
            MigrationStep::AlreadyDone => Some(
                "Database already exists, migration already completed".to_owned(),
            ),
            MigrationStep::Migrate => None,
        }
    }
}

// ---------------------------------------------------------------------------------------------
// What is kept of each post
// ---------------------------------------------------------------------------------------------

/// For every post of a checkpoint there is a row with the URL of its link, and with its user and
/// its time as they were.
pub proof fn every_post_is_kept_as_it_was(links: Seq<SavedLinkView>, i: int, j: int) -> (k: int)
    requires
        0 <= i < links.len(),
        0 <= j < links[i].posts.len(),
    ensures
        k == saved_posts(links.take(i)) + j,
        0 <= k < rows_of_links(links).len(),
        rows_of_links(links)[k].url == links[i].url,
        rows_of_links(links)[k].user_id == links[i].posts[j].user_id,
        rows_of_links(links)[k].posted_at == links[i].posts[j].posted_at,
    decreases links.len(),
{
    let rest = links.drop_last();
    let front = rows_of_links(rest);
    one_row_for_each_post(rest);
    if i == links.len() - 1 {
        assert(links.take(i) =~= rest);
        let k = front.len() + j;
        assert(rows_of_links(links)[k] == rows_of_link(links.last())[j]);
        k
    } else {
        assert(rest[i] == links[i]);
        assert(rest.take(i) =~= links.take(i));
        let k = every_post_is_kept_as_it_was(rest, i, j);
        assert(rows_of_links(links)[k] == front[k]);
        k
    }
}

/// Rows are numbered one by one, with URL and time as they were and the number that the text of
/// the user stands for, until a user is no number: that user is named, and no row from there on is
/// stored.
pub proof fn rows_are_numbered_up_to_the_first_bad_user(rows: Seq<SavedRowView>)
    ensures
        numbered_rows(rows).len() <= rows.len(),
        forall|i: int|
            0 <= i < numbered_rows(rows).len() ==> {
                &&& (#[trigger] numbered_rows(rows)[i]).url == rows[i].url
                &&& parsed_number(rows[i].user_id) == Some(numbered_rows(rows)[i].user_id)
                &&& numbered_rows(rows)[i].posted_at == rows[i].posted_at
            },
        numbered_rows(rows).len() == rows.len() ==> unreadable_user(rows) is None,
        numbered_rows(rows).len() < rows.len() ==> {
            &&& parsed_number(rows[numbered_rows(rows).len() as int].user_id) is None
            &&& unreadable_user(rows) == Some(rows[numbered_rows(rows).len() as int].user_id)
        },
{
    readable_rows_bounds(rows, 0);
    let n = readable_rows(rows, 0);
    assert forall|i: int| 0 <= i < n implies {
        &&& (#[trigger] numbered_rows(rows)[i]).url == rows[i].url
        &&& parsed_number(rows[i].user_id) == Some(numbered_rows(rows)[i].user_id)
        &&& numbered_rows(rows)[i].posted_at == rows[i].posted_at
    } by {
        assert(rows.take(n)[i] == rows[i]);
        assert(parsed_number(rows[i].user_id) is Some);
    }
}

/// What is said where there is nothing to migrate.
pub proof fn notices_are_as_they_are()
    ensures
        MigrationStep::NoCheckpoint.notice_text() == Some(
            "No checkpoint.json found, nothing to migrate"@,
        ),
        MigrationStep::AlreadyDone.notice_text() == Some(
            "Database already exists, migration already completed"@,
        ),
        MigrationStep::Migrate.notice_text() is None,
{
}

/// The rows that are made of the links of a checkpoint hold, for every post, the URL, the user and
/// the time that stand there, and there is no other row.
pub proof fn migrated_rows_hold_every_post(
    links: Seq<SavedLink>,
    rows: Seq<SavedRow>,
    i: int,
    j: int,
) -> (k: int)
    requires
        saved_row_views(rows) == rows_of_links(link_views(links)),
        0 <= i < links.len(),
        0 <= j < links[i].posts@.len(),
    ensures
        0 <= k < rows.len(),
        rows[k].url@ == links[i].url@,
        rows[k].user_id@ == links[i].posts@[j].user_id@,
        rows[k].posted_at@ == links[i].posts@[j].posted_at@,
        rows.len() == saved_posts(link_views(links)),
{
    let views = link_views(links);
    one_row_for_each_post(views);
    assert(views[i] == links[i]@);
    assert(views[i].posts[j] == links[i].posts@[j]@);
    let k = every_post_is_kept_as_it_was(views, i, j);
    assert(saved_row_views(rows)[k] == rows[k]@);
    assert(saved_row_views(rows).len() == rows.len());
    k
}

/// The rows that are numbered hold the URLs and times that stood there, and the numbers of the
/// users.
pub proof fn numbered_rows_hold_what_stood_there(
    rows: Seq<SavedRow>,
    numbered: Seq<NumberedRow>,
    i: int,
)
    requires
        numbered_row_views(numbered) == numbered_rows(saved_row_views(rows)),
        0 <= i < numbered.len(),
    ensures
        i < rows.len(),
        numbered[i].url@ == rows[i].url@,
        parsed_number(rows[i].user_id@) == Some(numbered[i].user_id),
        numbered[i].posted_at@ == rows[i].posted_at@,
{
    let views = saved_row_views(rows);
    rows_are_numbered_up_to_the_first_bad_user(views);
    assert(numbered_row_views(numbered)[i] == numbered[i]@);
    assert(views[i] == rows[i]@);
}

} // verus!
