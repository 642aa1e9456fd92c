//! Laws of graphics cards.

use crate::binary64::Binary64;
use crate::gpu;
use crate::gpu::Amount;
use crate::gpu::GpuConfig;
use crate::gpu::GpuInfo;
use crate::gpu::Measure;
use crate::sensors;
use vstd::prelude::*;

verus! {

/// A number that was measured is that number over its divisor; where none was, it is zero.
pub proof fn law_amount(value: Binary64, divisor: u32)
    ensures
        gpu::amount_of(Some(value), divisor) == (Amount::Scaled { value, divisor }),
        gpu::amount_of(None, divisor) == (Amount::Scaled {
            value: (Binary64 { bits: 0 }),
            divisor: 1,
        }),
        gpu::no_amount() == gpu::amount_of(None, divisor),
{
}

/// A card with a name is shown by it, any other by its address.
pub proof fn law_shown_name(names: Map<Seq<char>, Seq<char>>, id: Seq<char>, name: Seq<char>)
    ensures
        gpu::shown_name(names.insert(id, name), id) == name,
        gpu::shown_name(names.remove(id), id) == id,
        gpu::shown_name(Map::empty(), id) == id,
{
}

/// Naming one card leaves what another is shown by.
pub proof fn law_names_apart(
    names: Map<Seq<char>, Seq<char>>,
    id: Seq<char>,
    name: Seq<char>,
    other: Seq<char>,
)
    requires
        other != id,
    ensures
        gpu::shown_name(names.insert(id, name), other) == gpu::shown_name(names, other),
{
}

/// Configurations, measured numbers and what is known of cards hold what they are made of.
pub proof fn law_contents(c: GpuConfig, m: Measure, g: GpuInfo)
    ensures
        c@.id == c.id@ && c@.provider == c.provider && c@.sensors == sensors::requests(
            c.gpu_temp_sensors@,
        ) && c@.bar == c.bar,
        match m {
            Measure::Text(s) => m@ == Amount::Text(s@),
            Measure::Scaled { value, divisor } => m@ == (Amount::Scaled { value, divisor }),
            Measure::Share { part, whole } => m@ == (Amount::Share { part, whole }),
        },
        g@.id == g.id@ && g@.label == g.label@ && g@.model == g.model@ && g@.provider
            == g.provider,
        g@.gpu_usage == g.gpu_usage@ && g@.temperature == g.temperature@ && g@.power_watts
            == g.power_watts@ && g@.in_bar == g.in_bar,
        g@.mem_used == g.mem_used && g@.mem_total == g.mem_total,
        g@.gtt_used == g.gtt_used && g@.gtt_total == g.gtt_total,
{
}

/// Lists of configurations and of what is known of cards hold each item in its place.
pub proof fn law_lists(cs: Seq<GpuConfig>, gs: Seq<GpuInfo>)
    ensures
        gpu::configs_of(cs).len() == cs.len(),
        forall|i: int| 0 <= i < cs.len() ==> #[trigger] gpu::configs_of(cs)[i] == cs[i]@,
        gpu::infos(gs).len() == gs.len(),
        forall|i: int| 0 <= i < gs.len() ==> #[trigger] gpu::infos(gs)[i] == gs[i]@,
{
}

} // verus!
