//! GPUs of known vendors, as Linux DRM describes them.

use vstd::prelude::*;

use super::{AcceleratorSnapshot, AcceleratorView};
use crate::text::{
    chars_eq, int_error_text, lines, lines_of, lowercase, owned, parse_u64, parse_u64_chars,
    push_chars, push_str, str_chars, string_from_chars, strip_prefix, strip_prefix_chars,
    to_lowercase, trim, trim_chars, views,
};

verus! {

/// The inference backend of a PCI vendor ID, for the vendors whose GPUs count
/// as accelerators: NVIDIA, AMD and Intel.
pub open spec fn backend_of(vendor_id: Seq<char>) -> Option<Seq<char>> {
    if vendor_id == "0x10de"@ {
        Some("nvidia"@)
    } else if vendor_id == "0x1002"@ {
        Some("amd"@)
    } else if vendor_id == "0x8086"@ {
        Some("intel"@)
    } else {
        None
    }
}

/// The driver that the first `DRIVER=` line of a uevent names.
pub open spec fn driver_in(ls: Seq<Seq<char>>) -> Option<Seq<char>>
    decreases ls.len(),
{
    if ls.len() == 0 {
        None
    } else {
        match strip_prefix(ls[0], "DRIVER="@) {
            Some(d) => Some(d),
            None => driver_in(ls.drop_first()),
        }
    }
}

/// An optional VRAM amount: absent stays absent; present text, trimmed, must be
/// a decimal `u64`; `what` names it in the error.
pub open spec fn vram_amount(text: Option<Seq<char>>, what: Seq<char>) -> Result<Option<u64>, Seq<char>> {
    match text {
        None => Ok(None),
        Some(t) => match parse_u64(trim(t)) {
            Ok(v) => Ok(Some(v)),
            Err(e) => Err(what + int_error_text(e)),
        },
    }
}

/// The accelerator that DRM metadata describes: vendor and device IDs are
/// trimmed and lower-cased and must not be empty; a vendor other than NVIDIA,
/// AMD or Intel gives none; the name shows the backend and the uevent's driver,
/// or else the device ID; available VRAM is total minus used, or 0, when both are known.
pub open spec fn drm_accelerator(
    vendor: Seq<char>,
    device: Seq<char>,
    uevent: Seq<char>,
    memory_total: Option<Seq<char>>,
    memory_used: Option<Seq<char>>,
) -> Result<Option<AcceleratorView>, Seq<char>> {
    let vendor_id = lowercase(trim(vendor));
    let device_id = lowercase(trim(device));
    if vendor_id.len() == 0 || device_id.len() == 0 {
        Err("DRM vendor or device ID is empty"@)
    } else {
        match backend_of(vendor_id) {
            None => Ok(None),
            Some(backend) => {
                let shown = match driver_in(lines(uevent)) {
                    Some(d) => d,
                    None => device_id,
                };
                let name = backend + " GPU ("@ + shown + ")"@;
                match vram_amount(memory_total, "VRAM total is invalid: "@) {
                    Err(e) => Err(e),
                    Ok(total) => match vram_amount(memory_used, "VRAM usage is invalid: "@) {
                        Err(e) => Err(e),
                        Ok(used) => Ok(
                            Some(
                                AcceleratorView {
                                    backend,
                                    name,
                                    vendor_id: Some(vendor_id),
                                    device_id: Some(device_id),
                                    memory_total_bytes: total,
                                    memory_available_bytes: match (total, used) {
                                        (Some(t), Some(u)) => Some(
                                            if u <= t {
                                                (t - u) as u64
                                            } else {
                                                0
                                            },
                                        ),
                                        _ => None,
                                    },
                                },
                            ),
                        ),
                    },
                }
            },
        }
    }
}

/// The text an optional string slice holds.
pub open spec fn opt_str_view(o: Option<&str>) -> Option<Seq<char>> {
    match o {
        Some(s) => Some(s@),
        None => None,
    }
}

/// The view of an accelerator result, with the error as characters.
pub open spec fn drm_result_view(r: Result<Option<AcceleratorSnapshot>, String>) -> Result<Option<AcceleratorView>, Seq<char>> {
    match r {
        Ok(Some(a)) => Ok(Some(a@)),
        Ok(None) => Ok(None),
        Err(e) => Err(e@),
    }
}

/// Reads an optional VRAM amount (see `vram_amount`).
fn read_vram(text: Option<&str>, what: &str) -> (r: Result<Option<u64>, String>)
    ensures
        match r {
            Ok(v) => vram_amount(opt_str_view(text), what@) == Ok::<Option<u64>, Seq<char>>(v),
            Err(e) => vram_amount(opt_str_view(text), what@) == Err::<Option<u64>, Seq<char>>(e@),
        },
{
    match text {
        None => Ok(None),
        Some(t) => {
            let chars = str_chars(t);
            let trimmed = trim_chars(&chars);
            match parse_u64_chars(&trimmed) {
                Ok(v) => Ok(Some(v)),
                Err(e) => {
                    let mut s = owned(what);
                    let m = e.message();
                    push_str(&mut s, m.as_str());
                    Err(s)
                },
            }
        },
    }
}

/// Finds the driver that a uevent names (see `driver_in`).
fn find_driver(uevent: &[char]) -> (r: Option<Vec<char>>)
    ensures
        match r {
            Some(d) => driver_in(lines(uevent@)) == Some(d@),
            None => driver_in(lines(uevent@)) is None,
        },
{
    let ls = lines_of(uevent);
    let ghost lv = views(ls@);
    let prefix = str_chars("DRIVER=");
    let mut i: usize = 0;
    assert(lv.skip(0) =~= lv);
    while i < ls.len()
        invariant
            i <= ls.len(),
            lv == views(ls@),
            lv == lines(uevent@),
            prefix@ == "DRIVER="@,
            driver_in(lv) == driver_in(lv.skip(i as int)),
        decreases ls.len() - i,
    {
        assert(lv.skip(i as int)[0] == ls@[i as int]@);
        assert(lv.skip(i as int).drop_first() =~= lv.skip(i + 1));
        match strip_prefix_chars(&ls[i], &prefix) {
            Some(d) => {
                return Some(d);
            },
            None => {},
        }
        i = i + 1;
    }
    None
}

/// Builds an accelerator snapshot from DRM metadata (see `drm_accelerator`);
/// `Ok(None)` means a vendor whose devices are not inference accelerators.
pub fn parse_drm_accelerator(
    vendor: &str,
    device: &str,
    uevent: &str,
    memory_total: Option<&str>,
    memory_used: Option<&str>,
) -> (r: Result<Option<AcceleratorSnapshot>, String>)
    ensures
        drm_result_view(r) == drm_accelerator(
            vendor@,
            device@,
            uevent@,
            opt_str_view(memory_total),
            opt_str_view(memory_used),
        ),
{
    let vendor_id = to_lowercase(&trim_chars(&str_chars(vendor)));
    let device_id = to_lowercase(&trim_chars(&str_chars(device)));
    if vendor_id.len() == 0 || device_id.len() == 0 {
        return Err(owned("DRM vendor or device ID is empty"));
    }
    let backend = if chars_eq(&vendor_id, &str_chars("0x10de")) {
        "nvidia"
    } else if chars_eq(&vendor_id, &str_chars("0x1002")) {
        "amd"
    } else if chars_eq(&vendor_id, &str_chars("0x8086")) {
        "intel"
    } else {
        return Ok(None);
    };
    let uevent_chars = str_chars(uevent);
    let shown = match find_driver(&uevent_chars) {
        Some(d) => d,
        None => device_id.clone(),
    };
    let mut name = owned(backend);
    push_str(&mut name, " GPU (");
    push_chars(&mut name, &shown);
    push_str(&mut name, ")");
    let total = read_vram(memory_total, "VRAM total is invalid: ")?;
    let used = read_vram(memory_used, "VRAM usage is invalid: ")?;
    let available = match (total, used) {
        (Some(t), Some(u)) => Some(t.saturating_sub(u)),
        _ => None,
    };
    let a = AcceleratorSnapshot {
        backend: owned(backend),
        name,
        vendor_id: Some(string_from_chars(&vendor_id)),
        device_id: Some(string_from_chars(&device_id)),
        memory_total_bytes: total,
        memory_available_bytes: available,
    };
    Ok(Some(a))
}

} // verus!
