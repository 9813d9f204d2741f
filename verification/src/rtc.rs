//! Decoding the real-time clock's registers into a date and time.
use vstd::prelude::*;

verus! {

/// The clock registers as read from the CMOS: seconds (0x00), minutes
/// (0x02), hours (0x04), day (0x07), month (0x08), year (0x09) and status
/// register B (0x0B).
#[derive(Debug, Clone, Copy, PartialEq, Eq, Structural)]
pub struct RtcRegisters {
    pub second: u8,
    pub minute: u8,
    pub hour: u8,
    pub day: u8,
    pub month: u8,
    pub year: u8,
    pub status_b: u8,
}

/// A date and time of day.
#[derive(Debug, Clone, Copy, PartialEq, Eq, Structural)]
pub struct RtcTime {
    pub year: u16,
    pub month: u8,
    pub day: u8,
    pub hour: u8,
    pub minute: u8,
    pub second: u8,
}

/// The value of a two-digit BCD byte: low nibble plus ten times high nibble.
pub open spec fn bcd(v: int) -> int {
    v % 16 + (v / 16) * 10
}

/// The hour register decoded from BCD, keeping bit 7 (the PM flag of the
/// 12-hour format).
pub open spec fn bcd_hour(h: u8) -> u8 {
    (((h & 0x0F) + (((h & 0x70) / 16) * 10)) as u8) | (h & 0x80)
}

/// Whether status register B says the values are binary (bit 2) rather than BCD.
pub open spec fn binary_mode(b: u8) -> bool {
    b & 0x04 != 0
}

/// Whether status register B says the clock runs in 24-hour format (bit 1).
pub open spec fn hour_24_mode(b: u8) -> bool {
    b & 0x02 != 0
}

/// The hour after BCD decoding (when the clock uses BCD).
pub open spec fn decoded_hour(r: RtcRegisters) -> u8 {
    if binary_mode(r.status_b) {
        r.hour
    } else {
        bcd_hour(r.hour)
    }
}

/// The hour of the day (0 to 23) of a 12-hour clock hour `h` (1 to 12,
/// bit 7 set for PM): 12 AM is hour 0, 12 PM hour 12.
pub open spec fn hour_of_12(h: u8) -> u8 {
    if h & 0x80 != 0 {
        (((h & 0x7F) % 12) + 12) as u8
    } else {
        h % 12
    }
}

/// The time the registers hold: values decoded from BCD unless the clock
/// is in binary mode; a 12-hour clock's hour converted to the 24-hour day;
/// the year counted from 2000.
pub open spec fn rtc_time(r: RtcRegisters) -> RtcTime {
    let bin = binary_mode(r.status_b);
    let h = decoded_hour(r);
    RtcTime {
        second: if bin { r.second } else { bcd(r.second as int) as u8 },
        minute: if bin { r.minute } else { bcd(r.minute as int) as u8 },
        hour: if !hour_24_mode(r.status_b) {
            hour_of_12(h)
        } else {
            h
        },
        day: if bin { r.day } else { bcd(r.day as int) as u8 },
        month: if bin { r.month } else { bcd(r.month as int) as u8 },
        year: ((if bin { r.year as int } else { bcd(r.year as int) }) + 2000) as u16,
    }
}

/// Decodes a snapshot of the clock registers.
pub fn read_rtc(regs: &RtcRegisters) -> (t: RtcTime)
    ensures
        t == rtc_time(*regs),
{
    let mut second = regs.second;
    let mut minute = regs.minute;
    let mut hour = regs.hour;
    let mut day = regs.day;
    let mut month = regs.month;
    let mut year = regs.year as u16;
    let register_b = regs.status_b;

    if (register_b & 0x04) == 0 {
        assert(second & 0x0F == second % 16) by (bit_vector);
        assert(minute & 0x0F == minute % 16) by (bit_vector);
        assert(day & 0x0F == day % 16) by (bit_vector);
        assert(month & 0x0F == month % 16) by (bit_vector);
        assert(year & 0x0F == year % 16) by (bit_vector);
        assert(hour & 0x0F <= 15) by (bit_vector);
        assert(hour & 0x70 <= 0x70) by (bit_vector);
        second = (second & 0x0F) + ((second / 16) * 10);
        minute = (minute & 0x0F) + ((minute / 16) * 10);
        hour = (hour & 0x0F) + (((hour & 0x70) / 16) * 10) | (hour & 0x80);
        day = (day & 0x0F) + ((day / 16) * 10);
        month = (month & 0x0F) + ((month / 16) * 10);
        year = (year & 0x0F) + ((year / 16) * 10);
    }
    // Convert the 12-hour clock to the 24-hour day: 12 AM is hour 0, 12 PM
    // hour 12.
    if (register_b & 0x02) == 0 {
        if (hour & 0x80) != 0 {
            assert(hour & 0x7F <= 0x7F) by (bit_vector);
            hour = (hour & 0x7F) % 12 + 12;
        } else {
            hour = hour % 12;
        }
    }
    year += 2000;
    RtcTime { year, month, day, hour, minute, second }
}

} // verus!
