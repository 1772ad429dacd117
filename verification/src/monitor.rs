//! Local system metrics: the known AI services and the GPU report. Sampling
//! the system, probing ports and running `nvidia-smi` is left to the
//! application, as are the metrics that are floating point.

use vstd::prelude::*;
use crate::numbers::{parse_unsigned, parse_unsigned_chars};
use crate::text::{chars_of, lines, lines_of, split_chars, split_on, string_from, texts, trim, trim_chars};

verus! {

/// A local AI service and whether its port answers.
pub struct AiService {
    pub name: String,
    pub running: bool,
    pub port: u16,
}

/// Well-known local AI services and their ports, probed on 127.0.0.1 only.
pub open spec fn ai_service_table() -> Seq<(Seq<char>, u16)> {
    seq![
        ("Ollama"@, 11434u16),
        ("Open WebUI"@, 3000u16),
        ("Open WebUI (alt)"@, 8080u16),
        ("ComfyUI"@, 8188u16),
        ("Jupyter"@, 8888u16),
        ("vLLM"@, 8000u16),
        ("LM Studio"@, 1234u16),
        ("SD WebUI"@, 7860u16),
    ]
}

/// The services to probe, each not yet known to run.
pub fn ai_services() -> (res: Vec<AiService>)
    ensures
        res@.len() == ai_service_table().len(),
        forall|i: int|
            0 <= i < res@.len() ==> ((#[trigger] res@[i]).name@, res@[i].port) == ai_service_table()[i]
                && !res@[i].running,
{
    let res = vec![
        AiService { name: "Ollama".to_owned(), running: false, port: 11434 },
        AiService { name: "Open WebUI".to_owned(), running: false, port: 3000 },
        AiService { name: "Open WebUI (alt)".to_owned(), running: false, port: 8080 },
        AiService { name: "ComfyUI".to_owned(), running: false, port: 8188 },
        AiService { name: "Jupyter".to_owned(), running: false, port: 8888 },
        AiService { name: "vLLM".to_owned(), running: false, port: 8000 },
        AiService { name: "LM Studio".to_owned(), running: false, port: 1234 },
        AiService { name: "SD WebUI".to_owned(), running: false, port: 7860 },
    ];
    res
}

/// Utilization and memory of the first GPU.
pub struct GpuMetrics {
    pub name: String,
    pub utilization_pct: u8,
    pub vram_used_mb: u64,
    pub vram_total_mb: u64,
}

/// A number of the report, 0 when it cannot be read.
pub open spec fn number_or_zero(s: Seq<char>, max: nat) -> nat {
    match parse_unsigned(s, 10, max) {
        Some(n) => n,
        None => 0,
    }
}

/// The trimmed comma-separated fields of a line.
pub open spec fn fields_of(line: Seq<char>) -> Seq<Seq<char>> {
    split_on(line, seq![',']).map_values(|p: Seq<char>| trim(p))
}

/// What `nvidia-smi --query-gpu=name,utilization.gpu,memory.used,memory.total
/// --format=csv,noheader,nounits` reports of the first GPU: the first line of
/// its trimmed output, split at commas and trimmed; name, utilization, used
/// and total memory, a number that cannot be read counting as 0. Nothing
/// when there is no line or it has fewer than four fields.
pub open spec fn gpu_report(out: Seq<char>) -> Option<(Seq<char>, u8, u64, u64)> {
    let ls = lines_of(trim(out));
    if ls.len() == 0 {
        None
    } else {
        let f = fields_of(ls[0]);
        if f.len() < 4 {
            None
        } else {
            Some(
                (
                    f[0],
                    number_or_zero(f[1], u8::MAX as nat) as u8,
                    number_or_zero(f[2], u64::MAX as nat) as u64,
                    number_or_zero(f[3], u64::MAX as nat) as u64,
                ),
            )
        }
    }
}

fn number_or_zero_exec(s: &Vec<char>, max: u64) -> (res: u64)
    ensures
        res == number_or_zero(s@, max as nat),
{
    match parse_unsigned_chars(s, 10, max) {
        Some(n) => n,
        None => 0,
    }
}

/// Reads the GPU report printed by `nvidia-smi`.
pub fn parse_gpu_report(out: &str) -> (res: Option<GpuMetrics>)
    ensures
        match gpu_report(out@) {
            None => res is None,
            Some((name, util, used, total)) => res matches Some(g) && g.name@ == name
                && g.utilization_pct == util && g.vram_used_mb == used && g.vram_total_mb == total,
        },
{
    let t = trim_chars(&chars_of(out));
    let ls = lines(&t);
    if ls.len() == 0 {
        return None;
    }
    let seps: Vec<char> = vec![','];
    proof {
        assert(seps@ =~= seq![',']);
        assert(texts(ls@)[0] == ls@[0]@);
    }
    let pieces = split_chars(&ls[0], &seps);
    if pieces.len() < 4 {
        return None;
    }
    let name = trim_chars(&pieces[0]);
    let util = number_or_zero_exec(&trim_chars(&pieces[1]), 255);
    let used = number_or_zero_exec(&trim_chars(&pieces[2]), 0xffff_ffff_ffff_ffff);
    let total = number_or_zero_exec(&trim_chars(&pieces[3]), 0xffff_ffff_ffff_ffff);
    proof {
        let f = fields_of(ls@[0]@);
        assert(f[0] == trim(pieces@[0]@));
        assert(f[1] == trim(pieces@[1]@));
        assert(f[2] == trim(pieces@[2]@));
        assert(f[3] == trim(pieces@[3]@));
    }
    Some(
        GpuMetrics {
            name: string_from(&name),
            utilization_pct: util as u8,
            vram_used_mb: used,
            vram_total_mb: total,
        },
    )
}

} // verus!
