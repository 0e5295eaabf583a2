//! Operations offered to the user interface: choosing the panel's port
//! among the host's serial ports, and setting the light.
use vstd::prelude::*;

use crate::protocol::{cct_command, cct_payload, packet_spec};
use crate::session::{connected, write_effect, PortWriter, SerialError, SerialManager};

verus! {

/// Whether `pat` occurs in `s` as a run of consecutive characters.
pub open spec fn has_substring(s: Seq<char>, pat: Seq<char>) -> bool {
    exists|i: int| 0 <= i && i + pat.len() <= s.len() && #[trigger] s.subrange(i, i + pat.len()) == pat
}

/// Whether a port name follows the naming of the panel's USB-serial adapter.
pub open spec fn is_panel_port(name: Seq<char>) -> bool {
    has_substring(name, "usbserial"@)
}

/// The names among `names` that look like the panel's port, in order.
pub open spec fn panel_ports(names: Seq<Seq<char>>) -> Seq<Seq<char>>
    decreases names.len(),
{
    if names.len() == 0 {
        Seq::empty()
    } else {
        let rest = panel_ports(names.drop_last());
        if is_panel_port(names.last()) {
            rest.push(names.last())
        } else {
            rest
        }
    }
}

/// The characters of each name.
pub open spec fn names_view(names: Seq<String>) -> Seq<Seq<char>> {
    names.map_values(|s: String| s@)
}

/// Relies on `str::contains`: true exactly when `pat` occurs in `s`.
#[verifier::external_body]
pub(crate) fn str_contains(s: &str, pat: &str) -> (r: bool)
    ensures
        r == has_substring(s@, pat@),
{
    s.contains(pat)
}

/// The names of the host's serial ports that look like the panel's port,
/// in the order given.
pub fn list_ports(names: &[String]) -> (r: Vec<String>)
    ensures
        names_view(r@) == panel_ports(names_view(names@)),
{
    let mut out: Vec<String> = Vec::new();
    let mut i: usize = 0;
    while i < names.len()
        invariant
            i <= names@.len(),
            names_view(out@) == panel_ports(names_view(names@.take(i as int))),
        decreases names@.len() - i,
    {
        let ghost before = out@;
        assert(names_view(names@.take(i as int + 1)).drop_last() == names_view(
            names@.take(i as int),
        ));
        if str_contains(names[i].as_str(), "usbserial") {
            out.push(names[i].clone());
            assert(names_view(out@) == names_view(before).push(names[i as int]@));
        } else {
            assert(out@ == before);
        }
        i = i + 1;
    }
    assert(names@.take(names@.len() as int) == names@);
    out
}

/// The panel ports of a prefix of `names` start the panel ports of `names`.
proof fn lemma_panel_ports_prefix(names: Seq<Seq<char>>, j: int)
    requires
        0 <= j <= names.len(),
    ensures
        panel_ports(names.take(j)).len() <= panel_ports(names).len(),
        panel_ports(names).take(panel_ports(names.take(j)).len() as int) == panel_ports(
            names.take(j),
        ),
    decreases names.len(),
{
    if j == names.len() {
        assert(names.take(j) == names);
    } else {
        assert(names.drop_last().take(j) == names.take(j));
        lemma_panel_ports_prefix(names.drop_last(), j);
        let a = panel_ports(names.drop_last());
        let k = panel_ports(names.take(j)).len() as int;
        if is_panel_port(names.last()) {
            assert(a.push(names.last()).take(k) == a.take(k));
        }
    }
}

impl<P> SerialManager<P> {
    /// The first of the host's serial ports that looks like the panel's port,
    /// or `None` when none does.
    pub fn find_port(names: &[String]) -> (r: Option<String>)
        ensures
            match r {
                Some(n) => panel_ports(names_view(names@)).len() > 0 && n@ == panel_ports(
                    names_view(names@),
                )[0],
                None => panel_ports(names_view(names@)).len() == 0,
            },
    {
        let ghost all = names_view(names@);
        let mut i: usize = 0;
        while i < names.len()
            invariant
                i <= names@.len(),
                all == names_view(names@),
                panel_ports(all.take(i as int)).len() == 0,
            decreases names@.len() - i,
        {
            assert(all.take(i as int + 1).drop_last() == all.take(i as int));
            if str_contains(names[i].as_str(), "usbserial") {
                proof {
                    lemma_panel_ports_prefix(all, i as int + 1);
                    assert(panel_ports(all.take(i as int + 1)) == seq![names[i as int]@]);
                    assert(panel_ports(all)[0] == panel_ports(all).take(1)[0]);
                }
                return Some(names[i].clone());
            }
            i = i + 1;
        }
        assert(all.take(names@.len() as int) == all);
        None
    }
}

/// Sends the command that sets brightness (capped at 100) and color
/// temperature, as built by `cct_command`, through the manager's port: the
/// result is that of `write` with those 8 bytes.
pub fn set_light<P: PortWriter>(manager: &mut SerialManager<P>, brightness: u8, kelvin: u32) -> (r:
    Result<(), SerialError>)
    ensures
        !connected(old(manager)@) ==> final(manager)@ == old(manager)@ && r == Err::<
            (),
            SerialError,
        >(SerialError::NotConnected),
        connected(old(manager)@) ==> connected(final(manager)@) && write_effect(
            old(manager)@->0,
            final(manager)@->0,
            packet_spec(cct_payload(brightness, kelvin)),
            r,
        ),
{
    let cmd = cct_command(brightness, kelvin);
    manager.write(cmd.as_slice())
}

} // verus!
