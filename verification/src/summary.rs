//! What is kept of the decoded packages: for each network service
//! identifier, the title identifiers and title names seen with it.

use vstd::prelude::*;
use vstd::hash_map::StringHashMap;
use vstd::slice::slice_subrange;
use vstd::utf8::{decode_utf8, encode_utf8_decode_utf8, valid_utf8};
use crate::format::{decode, shown, ParamValue};
use crate::parser::{parse_param_sfo, values_of, ParamData};
use crate::primitives::split_once;
use crate::text::split_at_first;

verus! {

/// Why a package gives no summary.
#[derive(Debug, Clone, Copy, PartialEq, Eq, Structural)]
pub enum SummaryError {
    /// The buffer is not a PARAM.SFO that decodes.
    ParsingError,
    /// Something that the summary needs is not there.
    MissingData,
}

/// Size of the header in front of the text of a trophy configuration.
pub const TROPHY_HEADER_LEN: usize = 0x40;

/// The identifiers of a decoded package: what stands in front of the first
/// underscore of the shown `NPCOMMID` value, and the shown `TITLEID000` value.
/// Both keys must be there, and the first value must hold an underscore.
pub open spec fn ids_of(map: Map<Seq<char>, ParamValue>) -> Result<
    (Seq<char>, Seq<char>),
    SummaryError,
> {
    if !map.contains_key("NPCOMMID"@) || !map.contains_key("TITLEID000"@) {
        Err(SummaryError::MissingData)
    } else {
        match split_at_first(shown(map["NPCOMMID"@]), "_"@) {
            None => Err(SummaryError::MissingData),
            Some((comm_id, _)) => Ok((comm_id, shown(map["TITLEID000"@]))),
        }
    }
}

/// The identifiers of the package that a buffer holds.
pub open spec fn summary_of(buf: Seq<u8>) -> Result<(Seq<char>, Seq<char>), SummaryError> {
    match decode(buf) {
        Err(_) => Err(SummaryError::ParsingError),
        Ok(map) => ids_of(map),
    }
}

/// The title name in the text of a trophy configuration: what stands between
/// the first `<title-name>` and the first `</title-name>` behind it.
pub open spec fn title_in(text: Seq<char>) -> Option<Seq<char>> {
    match split_at_first(text, "<title-name>"@) {
        None => None,
        Some((_, behind)) => match split_at_first(behind, "</title-name>"@) {
            None => None,
            Some((name, _)) => Some(name),
        },
    }
}

/// Splits `text` around the first occurrence of `pattern`.
fn split_first<'a>(text: &'a str, pattern: &str) -> (r: Option<(&'a str, &'a str)>)
    ensures
        match r {
            Some((before, after)) => split_at_first(text@, pattern@) == Some((before@, after@)),
            None => split_at_first(text@, pattern@) is None,
        },
{
    split_once(text, pattern)
}

/// Finds the identifiers of a decoded package.
pub fn identify(parsed: &StringHashMap<ParamData>) -> (r: Result<(String, String), SummaryError>)
    ensures
        match r {
            Ok((comm_id, title_id)) => ids_of(values_of(parsed@)) == Ok::<
                (Seq<char>, Seq<char>),
                SummaryError,
            >((comm_id@, title_id@)),
            Err(e) => ids_of(values_of(parsed@)) == Err::<(Seq<char>, Seq<char>), SummaryError>(e),
        },
{
    let comm = match parsed.get("NPCOMMID") {
        Some(value) => value,
        None => return Err(SummaryError::MissingData),
    };
    let title = match parsed.get("TITLEID000") {
        Some(value) => value,
        None => return Err(SummaryError::MissingData),
    };
    let shown_comm = comm.to_string();
    let comm_id = match split_first(shown_comm.as_str(), "_") {
        Some((id, _)) => id.to_owned(),
        None => return Err(SummaryError::MissingData),
    };
    Ok((comm_id, title.to_string()))
}

/// Decodes a PARAM.SFO buffer and finds the identifiers of its package.
pub fn summarize(data: &[u8]) -> (r: Result<(String, String), SummaryError>)
    ensures
        match r {
            Ok((comm_id, title_id)) => summary_of(data@) == Ok::<
                (Seq<char>, Seq<char>),
                SummaryError,
            >((comm_id@, title_id@)),
            Err(e) => summary_of(data@) == Err::<(Seq<char>, Seq<char>), SummaryError>(e),
        },
{
    match parse_param_sfo(data) {
        Ok(parsed) => identify(&parsed),
        Err(_) => Err(SummaryError::ParsingError),
    }
}

/// Finds the title name in a trophy configuration: a header of 64 bytes, then
/// text.
pub fn title_name(data: &[u8]) -> (r: Result<String, SummaryError>)
    requires
        data@.len() >= TROPHY_HEADER_LEN,
        valid_utf8(data@.skip(TROPHY_HEADER_LEN as int)),
    ensures
        match r {
            Ok(name) => title_in(decode_utf8(data@.skip(TROPHY_HEADER_LEN as int))) == Some(name@),
            Err(e) => e == SummaryError::MissingData && title_in(
                decode_utf8(data@.skip(TROPHY_HEADER_LEN as int)),
            ) is None,
        },
{
    let body = slice_subrange(data, TROPHY_HEADER_LEN, data.len());
    let text = match core::str::from_utf8(body) {
        Ok(text) => text,
        Err(_) => vstd::pervasive::unreached(),
    };
    proof {
        encode_utf8_decode_utf8(text@);
    }
    let behind = match split_first(text, "<title-name>") {
        Some((_, behind)) => behind,
        None => return Err(SummaryError::MissingData),
    };
    match split_first(behind, "</title-name>") {
        Some((name, _)) => Ok(name.to_owned()),
        None => Err(SummaryError::MissingData),
    }
}

/// The strings of a list, each as its sequence of characters.
pub open spec fn names(list: Seq<String>) -> Seq<Seq<char>> {
    list.map_values(|name: String| name@)
}

/// `list` with `name` at its end, unless `list` holds `name` already.
pub open spec fn with_name(list: Seq<Seq<char>>, name: Seq<char>) -> Seq<Seq<char>> {
    if list.contains(name) {
        list
    } else {
        list.push(name)
    }
}

/// Appends `name` to `list` unless the list holds an equal string already.
fn add_name(list: &mut Vec<String>, name: String)
    requires
        names(old(list)@).no_duplicates(),
    ensures
        names(final(list)@).no_duplicates(),
        names(final(list)@) == with_name(names(old(list)@), name@),
{
    let mut at: usize = 0;
    while at < list.len()
        invariant
            at <= list@.len(),
            list@ == old(list)@,
            names(list@).no_duplicates(),
            forall|j: int| 0 <= j < at ==> names(list@)[j] != name@,
        decreases list@.len() - at,
    {
        if list[at] == name {
            assert(names(list@)[at as int] == name@);
            return ;
        }
        at = at + 1;
    }
    proof {
        assert(names(list@.push(name)) =~= names(list@).push(name@));
    }
    list.push(name);
}

/// What is known of one network service identifier. Neither list holds a
/// string twice; both keep the order in which the strings first came.
pub struct CommIdInfo {
    /// The title names seen, without the empty one.
    pub titles: Vec<String>,
    /// The title identifiers seen.
    pub title_ids: Vec<String>,
}

impl CommIdInfo {
    /// Neither list holds a string twice.
    pub open spec fn wf(&self) -> bool {
        &&& names(self.titles@).no_duplicates()
        &&& names(self.title_ids@).no_duplicates()
    }

    /// A record with nothing seen yet.
    pub fn default() -> (info: CommIdInfo)
        ensures
            info.wf(),
            info.titles@.len() == 0,
            info.title_ids@.len() == 0,
    {
        CommIdInfo { titles: Vec::new(), title_ids: Vec::new() }
    }

    /// Notes one package: its title identifier, and its title name unless
    /// that is empty.
    pub fn record(&mut self, title_id: String, title: String)
        requires
            old(self).wf(),
        ensures
            final(self).wf(),
            names(final(self).title_ids@) == with_name(names(old(self).title_ids@), title_id@),
            names(final(self).titles@) == if title@.len() == 0 {
                names(old(self).titles@)
            } else {
                with_name(names(old(self).titles@), title@)
            },
    {
        add_name(&mut self.title_ids, title_id);
        if !title.as_str().is_empty() {
            add_name(&mut self.titles, title);
        }
    }
}

} // verus!
