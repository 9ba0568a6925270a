//! The command that writes a template for a strategy.
use crate::data::wire;
use crate::text;
use vstd::prelude::*;

verus! {

/// What to do with strategies.
#[derive(Debug)]
pub enum StrategyCmd {
    /// Write a template to a file.
    New { file: String },
}

impl StrategyCmd {
    /// The file that the command writes.
    pub fn file(&self) -> (r: &str)
        ensures
            match *self {
                StrategyCmd::New { file } => r@ == file@,
            },
    {
        match self {
            StrategyCmd::New { file } => file.as_str(),
        }
    }
}

/// What is said when the template has been written.
pub open spec fn created(file: Seq<char>) -> Seq<Seq<char>> {
    seq![
        "已生成策略模板 "@ + file,
        "模板含完整 ctx API 注释，改掉 on_bar 即可。回测："@,
        "  stockrs backtest "@ + file + " --stock 600519 --start 2023-01-01"@,
    ]
}

/// Whether the command may go on: a file that is there is not written over. Gives what is
/// said when the template has been written.
pub fn run(cmd: &StrategyCmd, exists: bool) -> (r: Result<Vec<String>, String>)
    ensures
        match *cmd {
            StrategyCmd::New { file } => match r {
                Ok(lines) => !exists && text::texts(lines@) == created(file@),
                Err(e) => exists && e@ == file@ + " 已存在，换个文件名以免覆盖"@,
            },
        },
{
    let file = cmd.file();
    if exists {
        return Err(wire::both(file, " 已存在，换个文件名以免覆盖"));
    }
    let mut out: Vec<String> = Vec::new();
    out.push(wire::both("已生成策略模板 ", file));
    out.push("模板含完整 ctx API 注释，改掉 on_bar 即可。回测：".to_owned());
    out.push(wire::message("  stockrs backtest ", file, " --stock 600519 --start 2023-01-01"));
    assert(text::texts(out@) =~= created(file@));
    Ok(out)
}

/// What is said when the template cannot be written.
pub fn write_error(file: &str, cause: &str) -> (r: String)
    ensures
        r@ == "无法写入 "@ + file@ + "："@ + cause@,
{
    let mut out = wire::message("无法写入 ", file, "：");
    out.append(cause);
    out
}

} // verus!
