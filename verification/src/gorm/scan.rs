//! The printed table of the devices that BlueZ knows.

use vstd::prelude::*;
use crate::gorm::device::{state_word, BtDevice, BtDeviceView};
use crate::number::{decimal, decimal_of, signed_decimal, signed_decimal_of};
use crate::text::{left_aligned, opt_or, pad_left, pad_right, right_aligned, text_or};

verus! {

/// The columns of a row, with a space between each two.
pub open spec fn columns(
    address: Seq<char>,
    state: Seq<char>,
    rssi: Seq<char>,
    battery: Seq<char>,
    class: Seq<char>,
    name: Seq<char>,
) -> Seq<char> {
    left_aligned(address, 17) + seq![' '] + left_aligned(state, 12) + seq![' '] + right_aligned(
        rssi,
        5,
    ) + seq![' '] + right_aligned(battery, 5) + seq![' '] + left_aligned(class, 16) + seq![' ']
        + name
}

/// The row of the printed table for a device.
pub open spec fn scan_row(d: BtDeviceView) -> Seq<char> {
    columns(
        d.address,
        if d.trusted {
            state_word(d) + " ✓"@
        } else {
            state_word(d)
        },
        match d.rssi {
            Some(r) => signed_decimal(r as int),
            None => "-"@,
        },
        match d.battery {
            Some(b) => decimal(b as nat) + "%"@,
            None => "-"@,
        },
        text_or(d.icon, "-"@),
        text_or(d.name, "(unknown)"@),
    )
}

/// The columns of a row, with a space between each two.
fn columns_of(
    address: &str,
    state: &str,
    rssi: &str,
    battery: &str,
    class: &str,
    name: &str,
) -> (s: String)
    ensures
        s@ == columns(address@, state@, rssi@, battery@, class@, name@),
{
    let mut s = pad_right(address, 17);
    s.push(' ');
    let state = pad_right(state, 12);
    s.append(state.as_str());
    s.push(' ');
    let rssi = pad_left(rssi, 5);
    s.append(rssi.as_str());
    s.push(' ');
    let battery = pad_left(battery, 5);
    s.append(battery.as_str());
    s.push(' ');
    let class = pad_right(class, 16);
    s.append(class.as_str());
    s.push(' ');
    s.append(name);
    s
}

/// The header of the printed table.
pub fn header_line() -> (s: String)
    ensures
        s@ == columns("ADDRESS"@, "STATE"@, "RSSI"@, "BATT"@, "TYPE"@, "NAME"@),
{
    columns_of("ADDRESS", "STATE", "RSSI", "BATT", "TYPE", "NAME")
}

/// The row of the printed table for a device.
pub fn device_line(d: &BtDevice) -> (s: String)
    ensures
        s@ == scan_row(d@),
{
    let mut state = d.state_label().to_owned();
    if d.trusted {
        state.append(" ✓");
    }
    let rssi = match d.rssi {
        Some(r) => signed_decimal_of(r as i64),
        None => "-".to_owned(),
    };
    let battery = match d.battery {
        Some(b) => {
            let mut t = decimal_of(b as u64);
            t.append("%");
            t
        },
        None => "-".to_owned(),
    };
    let class = opt_or(&d.icon, "-");
    let name = opt_or(&d.name, "(unknown)");
    columns_of(
        d.address.as_str(),
        state.as_str(),
        rssi.as_str(),
        battery.as_str(),
        class.as_str(),
        name.as_str(),
    )
}

/// What is said behind the table of `n` devices.
pub fn known_line(n: usize) -> (s: String)
    ensures
        s@ == decimal(n as nat) + " device(s) known"@,
{
    let mut s = decimal_of(n as u64);
    s.append(" device(s) known");
    s
}

} // verus!
