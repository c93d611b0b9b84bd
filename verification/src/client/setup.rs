//! What the setup wizard makes of its answers.

use vstd::prelude::*;

use crate::client::api::trim_slashes;
use crate::client::config::{PrinterCfg, ServerCfg};
use crate::text::{str_eq, trim};
use crate::text;
use crate::client::api;

verus! {

/// The name of a station that has none: the computer's, or else the host's.
pub open spec fn station_of(
    computer: Option<Seq<char>>,
    host: Option<Seq<char>>,
) -> Seq<char> {
    let name = if computer is Some {
        computer
    } else {
        host
    };
    match name {
        Some(n) => if n.len() > 0 {
            n
        } else {
            "station-1"@
        },
        None => "station-1"@,
    }
}

pub fn default_station(computer: Option<String>, host: Option<String>) -> (r: String)
    ensures
        r@ == station_of(text::opt_view(computer), text::opt_view(host)),
{
    let name = match computer {
        Some(n) => Some(n),
        None => host,
    };
    match name {
        Some(n) => if n.as_str().is_empty() {
            "station-1".to_owned()
        } else {
            n
        },
        None => "station-1".to_owned(),
    }
}

/// A location, unless the answer is blank.
pub fn location_of(answer: String) -> (r: Option<String>)
    ensures
        match r {
            Some(l) => text::trim_spec(answer@).len() > 0 && l == answer,
            None => text::trim_spec(answer@).len() == 0,
        },
{
    let t = trim(answer.as_str());
    if t.as_str().is_empty() {
        None
    } else {
        Some(answer)
    }
}

/// A server, from the answers.
pub fn server_of(url: &str, token: &str) -> (r: ServerCfg)
    ensures
        r.url@ == api::without_slashes(text::trim_spec(url@)),
        r.token@ == text::trim_spec(token@),
{
    let address = trim(url);
    ServerCfg { url: trim_slashes(address.as_str()), token: trim(token) }
}

/// Whether a queue is among the chosen printers.
pub open spec fn is_chosen(printers: Seq<PrinterCfg>, queue: Seq<char>) -> bool {
    exists|i: int|
        0 <= i < printers.len() && text::opt_view((#[trigger] printers[i]).os_id) == Some(queue)
}

/// The queues that are not chosen yet.
pub open spec fn unchosen(detected: Seq<Seq<char>>, printers: Seq<PrinterCfg>) -> Seq<Seq<char>>
    decreases detected.len(),
{
    if detected.len() == 0 {
        seq![]
    } else {
        let rest = unchosen(detected.drop_last(), printers);
        if is_chosen(printers, detected.last()) {
            rest
        } else {
            rest.push(detected.last())
        }
    }
}

fn chosen(printers: &Vec<PrinterCfg>, queue: &str) -> (r: bool)
    ensures
        r == is_chosen(printers@, queue@),
{
    let mut i: usize = 0;
    while i < printers.len()
        invariant
            i <= printers@.len(),
            forall|k: int|
                0 <= k < i ==> text::opt_view((#[trigger] printers@[k]).os_id) != Some(queue@),
        decreases printers@.len() - i,
    {
        if let Some(id) = &printers[i].os_id {
            if str_eq(id.as_str(), queue) {
                assert(text::opt_view(printers@[i as int].os_id) == Some(queue@));
                return true;
            }
        }
        i += 1;
    }
    false
}

/// The menu of printers: the queues that are left, then a command of one's own,
/// then the end.
pub fn printer_options(detected: &Vec<String>, printers: &Vec<PrinterCfg>) -> (r: Vec<String>)
    ensures
        text::views(r@) == unchosen(text::views(detected@), printers@).push(
            "Custom command / folder sink\u{2026}"@,
        ).push(
            if printers@.len() == 0 {
                "Done (no printers \u{2014} use a folder sink later)"@
            } else {
                "Done"@
            },
        ),
{
    let ghost all = text::views(detected@);
    let mut out: Vec<String> = Vec::new();
    let mut i: usize = 0;
    assert(all.take(0) =~= Seq::<Seq<char>>::empty());
    assert(text::views(out@) =~= unchosen(all.take(0), printers@));
    while i < detected.len()
        invariant
            i <= detected@.len(),
            all == text::views(detected@),
            text::views(out@) == unchosen(all.take(i as int), printers@),
        decreases detected@.len() - i,
    {
        let ghost out0 = out@;
        proof {
            assert(all.take(i as int + 1).drop_last() =~= all.take(i as int));
            assert(all.take(i as int + 1).last() == detected@[i as int]@);
        }
        if !chosen(printers, detected[i].as_str()) {
            out.push(detected[i].as_str().to_owned());
            assert(text::views(out@) =~= text::views(out0).push(detected@[i as int]@));
        }
        i += 1;
    }
    assert(all.take(i as int) =~= all);
    let ghost kept = out@;
    out.push("Custom command / folder sink\u{2026}".to_owned());
    assert(text::views(out@) =~= text::views(kept).push("Custom command / folder sink\u{2026}"@));
    let ghost two = out@;
    if printers.len() == 0 {
        out.push("Done (no printers \u{2014} use a folder sink later)".to_owned());
        assert(text::views(out@) =~= text::views(two).push(
            "Done (no printers \u{2014} use a folder sink later)"@,
        ));
    } else {
        out.push("Done".to_owned());
        assert(text::views(out@) =~= text::views(two).push("Done"@));
    }
    out
}

/// What was picked from the menu.
#[derive(Debug, Clone, PartialEq, Eq)]
pub enum PrinterChoice {
    Done,
    Custom,
    Queue { os_id: String },
}

/// Reads what was picked from a menu of printers.
pub fn read_choice(options: &Vec<String>, choice: usize) -> (r: PrinterChoice)
    requires
        options@.len() >= 2,
        choice < options@.len(),
    ensures
        match r {
            PrinterChoice::Done => choice == options@.len() - 1,
            PrinterChoice::Custom => choice == options@.len() - 2,
            PrinterChoice::Queue { os_id } => choice < options@.len() - 2 && os_id@
                == options@[choice as int]@,
        },
{
    if choice == options.len() - 1 {
        PrinterChoice::Done
    } else if choice == options.len() - 2 {
        PrinterChoice::Custom
    } else {
        PrinterChoice::Queue { os_id: options[choice].as_str().to_owned() }
    }
}

/// A printer with a command of its own.
pub fn custom_printer(name: &str, command: &str) -> (r: PrinterCfg)
    ensures
        r.name@ == text::trim_spec(name@),
        r.os_id is None,
        text::opt_view(r.command) == Some(text::trim_spec(command@)),
{
    PrinterCfg { name: trim(name), os_id: None, command: Some(trim(command)) }
}

/// A printer on one of the system's queues.
pub fn queue_printer(name: &str, os_id: String) -> (r: PrinterCfg)
    ensures
        r.name@ == text::trim_spec(name@),
        r.os_id == Some(os_id),
        r.command is None,
{
    PrinterCfg { name: trim(name), os_id: Some(os_id), command: None }
}

/// A queue that was chosen is not offered again.
pub proof fn chosen_queues_are_not_offered(
    detected: Seq<Seq<char>>,
    printers: Seq<PrinterCfg>,
    i: int,
)
    requires
        0 <= i < unchosen(detected, printers).len(),
    ensures
        !is_chosen(printers, unchosen(detected, printers)[i]),
        detected.contains(unchosen(detected, printers)[i]),
    decreases detected.len(),
{
    if detected.len() > 0 {
        let rest = unchosen(detected.drop_last(), printers);
        if i < rest.len() {
            chosen_queues_are_not_offered(detected.drop_last(), printers, i);
            let k = choose|k: int|
                0 <= k < detected.drop_last().len() && detected.drop_last()[k] == rest[i];
            assert(detected[k] == rest[i]);
        } else {
            assert(detected[detected.len() - 1] == detected.last());
        }
    }
}

} // verus!
