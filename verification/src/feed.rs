//! The feeds: what the caller reads from a feed document, and how it is
//! shown.

use vstd::prelude::*;
use vstd::string::StringExecFns;

verus! {

/// An entry of a feed: what is shown of it.
#[derive(Debug, PartialEq, Eq)]
pub struct Entry {
    pub title: Option<String>,
    pub summary: Option<String>,
}

/// What an entry says, as mathematics.
pub struct EntryModel {
    pub title: Option<Seq<char>>,
    pub summary: Option<Seq<char>>,
}

impl View for Entry {
    type V = EntryModel;

    open spec fn view(&self) -> EntryModel {
        EntryModel { title: self.title.deep_view(), summary: self.summary.deep_view() }
    }
}

/// The models of a sequence of entries, in order.
pub open spec fn entry_models(entries: Seq<Entry>) -> Seq<EntryModel> {
    entries.map_values(|e: Entry| e@)
}

/// What came of asking for one address.
#[derive(Debug, PartialEq, Eq)]
pub enum Fetched {
    /// Nothing: the fetch failed.
    Missing,
    /// A body that is no feed.
    NoFeed,
    /// A feed, with its entries in the order of the document.
    Feed(Vec<Entry>),
}

/// What came of asking for one address, as mathematics.
pub enum FetchedModel {
    Missing,
    NoFeed,
    Feed(Seq<EntryModel>),
}

impl View for Fetched {
    type V = FetchedModel;

    open spec fn view(&self) -> FetchedModel {
        match *self {
            Fetched::Missing => FetchedModel::Missing,
            Fetched::NoFeed => FetchedModel::NoFeed,
            Fetched::Feed(entries) => FetchedModel::Feed(entry_models(entries@)),
        }
    }
}

/// The models of what came of a sequence of addresses, in order.
pub open spec fn fetched_models(fetched: Seq<Fetched>) -> Seq<FetchedModel> {
    fetched.map_values(|f: Fetched| f@)
}

/// A part of an entry as it is shown: its text, or a mark that it is
/// missing.
pub open spec fn shown(part: Option<Seq<char>>) -> Seq<char> {
    match part {
        Some(text) => text,
        None => "N/A"@,
    }
}

/// An entry as it is shown: its title, an empty line, its summary.
pub open spec fn entry_text(entry: EntryModel) -> Seq<char> {
    shown(entry.title) + "\r\n\r\n"@ + shown(entry.summary)
}

/// The entries as they are shown: one after the other, with a rule between
/// each two.
pub open spec fn entries_text(entries: Seq<EntryModel>) -> Seq<char>
    decreases entries.len(),
{
    if entries.len() == 0 {
        Seq::empty()
    } else if entries.len() == 1 {
        entry_text(entries[0])
    } else {
        entries_text(entries.drop_last()) + "\r\n\r\n-----\r\n\r\n"@ + entry_text(entries.last())
    }
}

/// Appends to `out` a part of an entry as it is shown.
fn append_shown(out: &mut String, part: &Option<String>)
    ensures
        final(out)@ == old(out)@ + shown(part.deep_view()),
{
    match part {
        Some(text) => out.append(text.as_str()),
        None => out.append("N/A"),
    }
}

/// Shows the entries.
pub fn render_entries(entries: &Vec<Entry>) -> (text: String)
    ensures
        text@ == entries_text(entry_models(entries@)),
{
    let mut text = String::new();
    let mut i: usize = 0;
    assert(entry_models(entries@).take(0) =~= Seq::<EntryModel>::empty());
    while i < entries.len()
        invariant
            i <= entries.len(),
            text@ == entries_text(entry_models(entries@).take(i as int)),
        decreases entries.len() - i,
    {
        let ghost done = entry_models(entries@).take(i as int);
        let ghost next = entry_models(entries@).take(i + 1);
        let ghost before = text@;
        assert(next.drop_last() =~= done);
        assert(next.last() == entries@[i as int]@);
        if i > 0 {
            text.append("\r\n\r\n-----\r\n\r\n");
        }
        append_shown(&mut text, &entries[i].title);
        text.append("\r\n\r\n");
        append_shown(&mut text, &entries[i].summary);
        proof {
            let entry = entries@[i as int]@;
            if i == 0 {
                assert(before =~= Seq::<char>::empty());
                assert(next[0] == entry);
                assert(text@ =~= entry_text(entry));
            } else {
                assert(text@ =~= before + "\r\n\r\n-----\r\n\r\n"@ + entry_text(entry));
            }
        }
        i = i + 1;
    }
    assert(entry_models(entries@).take(entries.len() as int) =~= entry_models(entries@));
    text
}

} // verus!
