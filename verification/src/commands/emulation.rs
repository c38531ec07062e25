//! Emulation requests: which flags go together, whether a request asks for
//! any emulation at all, how a viewport size is read, and what happens to a
//! tab's URL block list and which actions are reported.
use crate::commands::executor::{join_comma, merge_blocklist, merged_blocks, push_joined_strs};
use crate::text::{
    chars_of, owned, parse_bounded, parse_u64_max, push_str, split_on, split_pieces,
    string_from_chars, to_lowercase, to_lowercase_spec, trim, trim_chars,
};
use vstd::prelude::*;

verus! {

/// The emulation flags of a request. The device scale factor and the
/// geolocation accuracy are numbers with a fraction; what the logic here
/// reads of them is only whether they were given.
pub struct EmulateParams {
    pub viewport: Option<String>,
    pub has_device_scale_factor: bool,
    pub mobile: bool,
    pub geolocation: Option<String>,
    pub has_accuracy: bool,
    pub clear_viewport: bool,
    pub clear_geolocation: bool,
    pub clear_all: bool,
    /// Patterns to add to the tab's URL block list.
    pub block_url: Vec<String>,
    /// Patterns to remove from it.
    pub unblock_url: Vec<String>,
    /// Empty the block list first.
    pub clear_blocks: bool,
}

/// The first flag combination that makes no sense, if any: an accuracy
/// without a geolocation, `mobile` or a scale factor without a viewport.
pub open spec fn cross_field_error(p: EmulateParams) -> Option<Seq<char>> {
    if p.has_accuracy && p.geolocation is None {
        Some("--accuracy requires --geolocation"@)
    } else if p.mobile && p.viewport is None {
        Some("--mobile requires --viewport"@)
    } else if p.has_device_scale_factor && p.viewport is None {
        Some("--device-scale-factor requires --viewport"@)
    } else {
        None
    }
}

/// Whether any flag asks for emulation or a block-list change.
pub open spec fn has_emulation_spec(p: EmulateParams) -> bool {
    p.viewport is Some || p.geolocation is Some || p.has_device_scale_factor || p.mobile
        || p.clear_all || p.clear_viewport || p.clear_geolocation || p.block_url@.len() > 0
        || p.unblock_url@.len() > 0 || p.clear_blocks
}

/// Whether the request changes the tab's block list.
pub open spec fn network_changed_spec(p: EmulateParams) -> bool {
    p.block_url@.len() > 0 || p.unblock_url@.len() > 0 || p.clear_blocks || p.clear_all
}

/// The reported actions of the block-list and clearing part of a request,
/// in order.
pub open spec fn emulation_actions_spec(p: EmulateParams) -> Seq<Seq<char>> {
    (if p.clear_all || p.clear_blocks {
        seq!["Network blocks cleared"@]
    } else {
        Seq::empty()
    }) + (if p.block_url@.len() > 0 {
        seq!["Blocked URLs: "@ + join_comma(p.block_url@.map_values(|s: String| s@))]
    } else {
        Seq::empty()
    }) + (if p.unblock_url@.len() > 0 {
        seq!["Un-blocked URLs: "@ + join_comma(p.unblock_url@.map_values(|s: String| s@))]
    } else {
        Seq::empty()
    }) + (if p.clear_all || p.clear_viewport {
        seq!["Viewport cleared"@]
    } else {
        Seq::empty()
    }) + (if p.clear_all || p.clear_geolocation {
        seq!["Geolocation cleared"@]
    } else {
        Seq::empty()
    })
}

/// The block list after a request: emptied first when asked to, then the
/// block and unblock patterns merged in.
pub open spec fn blocklist_after(list: Seq<Seq<char>>, p: EmulateParams) -> Seq<Seq<char>> {
    merged_blocks(
        if p.clear_all || p.clear_blocks {
            Seq::empty()
        } else {
            list
        },
        p.block_url@,
        p.unblock_url@,
    )
}

/// What the block-list and clearing part of a request did: the actions to
/// report and whether the block list must be sent to the browser again.
pub struct EmulationPlan {
    pub actions: Vec<String>,
    pub network_changed: bool,
    pub clear_viewport: bool,
    pub clear_geolocation: bool,
}

impl EmulateParams {
    /// Checks the flag combinations (see `cross_field_error`).
    pub fn validate(&self) -> (r: Result<(), String>)
        ensures
            match cross_field_error(*self) {
                None => r is Ok,
                Some(m) => r matches Err(e) && e@ == m,
            },
    {
        if self.has_accuracy && self.geolocation.is_none() {
            Err(owned("--accuracy requires --geolocation"))
        } else if self.mobile && self.viewport.is_none() {
            Err(owned("--mobile requires --viewport"))
        } else if self.has_device_scale_factor && self.viewport.is_none() {
            Err(owned("--device-scale-factor requires --viewport"))
        } else {
            Ok(())
        }
    }

    /// Whether the request asks for any emulation (see `has_emulation_spec`).
    pub fn has_emulation(&self) -> (b: bool)
        ensures
            b == has_emulation_spec(*self),
    {
        self.viewport.is_some() || self.geolocation.is_some() || self.has_device_scale_factor
            || self.mobile || self.clear_all || self.clear_viewport || self.clear_geolocation
            || self.block_url.len() > 0 || self.unblock_url.len() > 0 || self.clear_blocks
    }
}

fn joined_action(prefix: &str, parts: &Vec<String>) -> (r: String)
    ensures
        r@ == prefix@ + join_comma(parts@.map_values(|s: String| s@)),
{
    let mut m = chars_of(prefix);
    push_joined_strs(&mut m, parts);
    string_from_chars(m.as_slice())
}

/// Applies the block-list part of a request to the tab's block list and
/// lists the actions of the block-list and clearing part.
pub fn plan_emulation(blocklist: &mut Vec<String>, p: &EmulateParams) -> (r: EmulationPlan)
    ensures
        final(blocklist)@.map_values(|e: String| e@) == blocklist_after(
            old(blocklist)@.map_values(|e: String| e@),
            *p,
        ),
        r.actions@.map_values(|e: String| e@) == emulation_actions_spec(*p),
        r.network_changed == network_changed_spec(*p),
        r.clear_viewport == (p.clear_all || p.clear_viewport),
        r.clear_geolocation == (p.clear_all || p.clear_geolocation),
{
    let ghost start = old(blocklist)@.map_values(|e: String| e@);
    let mut actions: Vec<String> = Vec::new();
    let ghost mut expected: Seq<Seq<char>> = Seq::empty();
    if p.clear_all || p.clear_blocks {
        blocklist.clear();
        actions.push(owned("Network blocks cleared"));
        proof {
            expected = seq!["Network blocks cleared"@];
            assert(blocklist@.map_values(|e: String| e@) =~= Seq::<Seq<char>>::empty());
        }
    } else {
        proof {
            assert(blocklist@.map_values(|e: String| e@) == start);
        }
    }
    merge_blocklist(blocklist, &p.block_url, &p.unblock_url);
    if p.block_url.len() > 0 {
        actions.push(joined_action("Blocked URLs: ", &p.block_url));
        proof {
            expected = expected + seq!["Blocked URLs: "@ + join_comma(p.block_url@.map_values(|s: String| s@))];
        }
    }
    if p.unblock_url.len() > 0 {
        actions.push(joined_action("Un-blocked URLs: ", &p.unblock_url));
        proof {
            expected = expected + seq!["Un-blocked URLs: "@ + join_comma(p.unblock_url@.map_values(|s: String| s@))];
        }
    }
    let clear_viewport = p.clear_all || p.clear_viewport;
    if clear_viewport {
        actions.push(owned("Viewport cleared"));
        proof {
            expected = expected + seq!["Viewport cleared"@];
        }
    }
    let clear_geolocation = p.clear_all || p.clear_geolocation;
    if clear_geolocation {
        actions.push(owned("Geolocation cleared"));
        proof {
            expected = expected + seq!["Geolocation cleared"@];
        }
    }
    proof {
        assert(actions@.map_values(|e: String| e@) =~= expected);
        assert(expected =~= emulation_actions_spec(*p));
    }
    let network_changed = p.block_url.len() > 0 || p.unblock_url.len() > 0 || p.clear_blocks
        || p.clear_all;
    EmulationPlan { actions, network_changed, clear_viewport, clear_geolocation }
}

/// The part of the override summary that lists the block list: a header and
/// one indented line per pattern; nothing when the list is empty.
pub open spec fn blocklist_summary_lines(list: Seq<String>, k: nat) -> Seq<char>
    decreases k,
{
    if k == 0 {
        Seq::empty()
    } else {
        blocklist_summary_lines(list, (k - 1) as nat) + "  "@ + list[k - 1]@ + "\n"@
    }
}

/// The block-list part of the override summary (see
/// `blocklist_summary_lines`).
pub fn blocklist_summary(list: &Vec<String>) -> (r: String)
    ensures
        r@ == if list@.len() == 0 {
            Seq::empty()
        } else {
            "Blocked URLs:\n"@ + blocklist_summary_lines(list@, list@.len())
        },
{
    if list.len() == 0 {
        return string_from_chars(Vec::<char>::new().as_slice());
    }
    let mut out = chars_of("Blocked URLs:\n");
    let mut i: usize = 0;
    while i < list.len()
        invariant
            0 <= i <= list@.len(),
            out@ == "Blocked URLs:\n"@ + blocklist_summary_lines(list@, i as nat),
        decreases list@.len() - i,
    {
        push_str(&mut out, "  ");
        push_str(&mut out, list[i].as_str());
        push_str(&mut out, "\n");
        i = i + 1;
    }
    string_from_chars(out.as_slice())
}

// ---------------------------------------------------------------------
// Viewport size
// ---------------------------------------------------------------------

pub const VIEWPORT_FORMAT: &'static str = "Viewport must be in WxH format (e.g. 1280x720)";

/// What a viewport size `WxH` reads as: the text is lowercased and split at
/// `x`; each side, trimmed, must be a positive `u32`.
pub open spec fn viewport_spec(s: Seq<char>) -> Result<(u32, u32), Seq<char>> {
    let parts = split_pieces(to_lowercase_spec(s), 'x');
    if parts.len() != 2 {
        Err(VIEWPORT_FORMAT@)
    } else {
        match (parse_bounded(trim(parts[0]), u32::MAX as nat), parse_bounded(trim(parts[1]), u32::MAX as nat)) {
            (None, _) => Err("Invalid width: "@ + parts[0]),
            (Some(_), None) => Err("Invalid height: "@ + parts[1]),
            (Some(w), Some(h)) => if w == 0 {
                Err("Invalid width: 0 (must be > 0)"@)
            } else if h == 0 {
                Err("Invalid height: 0 (must be > 0)"@)
            } else {
                Ok((w as u32, h as u32))
            },
        }
    }
}

/// Reads a viewport size (see `viewport_spec`).
pub fn parse_viewport(s: &str) -> (r: Result<(u32, u32), String>)
    ensures
        match (r, viewport_spec(s@)) {
            (Ok(a), Ok(b)) => a == b,
            (Err(e), Err(m)) => e@ == m,
            _ => false,
        },
{
    let lower = to_lowercase(s);
    let lc = chars_of(lower.as_str());
    let parts = split_on(lc.as_slice(), 'x');
    if parts.len() != 2 {
        return Err(owned(VIEWPORT_FORMAT));
    }
    let wt = trim_chars(parts[0].as_slice());
    let ht = trim_chars(parts[1].as_slice());
    let w = parse_u64_max(wt.as_slice(), 0xffff_ffff);
    let h = parse_u64_max(ht.as_slice(), 0xffff_ffff);
    match w {
        None => {
            let mut m = chars_of("Invalid width: ");
            crate::text::push_all(&mut m, parts[0].as_slice());
            Err(string_from_chars(m.as_slice()))
        },
        Some(wv) => match h {
            None => {
                let mut m = chars_of("Invalid height: ");
                crate::text::push_all(&mut m, parts[1].as_slice());
                Err(string_from_chars(m.as_slice()))
            },
            Some(hv) => {
                if wv == 0 {
                    Err(owned("Invalid width: 0 (must be > 0)"))
                } else if hv == 0 {
                    Err(owned("Invalid height: 0 (must be > 0)"))
                } else {
                    Ok((wv as u32, hv as u32))
                }
            },
        },
    }
}

} // verus!
