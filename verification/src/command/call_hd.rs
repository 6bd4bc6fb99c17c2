use crate::addr::PeerAddr;
use crate::conn::{meta_text, MetaSocketAddr};
use crate::text::views;
use vstd::prelude::*;

verus! {

/// The texts of peer addresses with their notes.
pub open spec fn meta_texts(v: Seq<MetaSocketAddr>) -> Seq<Seq<char>> {
    v.map_values(|m: MetaSocketAddr| meta_text(m.address(), m.note()))
}

/// A list of connections as report lines: their texts, or a line saying there are none.
pub open spec fn listed_or_none(lines: Seq<Seq<char>>) -> Seq<Seq<char>> {
    if lines.len() == 0 {
        seq!["无连接..."@]
    } else {
        lines
    }
}

/// The connection status report: this side's address, then the live connections, then
/// the dead ones, each under its header.
pub open spec fn report_lines(this: Seq<char>, live: Seq<Seq<char>>, dead: Seq<Seq<char>>) -> Seq<
    Seq<char>,
> {
    seq![
        "-----------------系统状态-------------------"@,
        "应用程序监听于："@ + this,
        "-----------------存活连接-------------------"@,
    ] + listed_or_none(live) + seq!["-----------------暂离连接-------------------"@]
        + listed_or_none(dead)
}

/// Formats the results of the calls that commands make.
pub struct CmdCallHandler;

fn push_listed(out: &mut Vec<String>, items: &Vec<MetaSocketAddr>)
    ensures
        views(final(out)@) == views(old(out)@) + listed_or_none(meta_texts(items@)),
{
    let ghost start = views(out@);
    if items.len() == 0 {
        out.push(String::from_str("无连接..."));
        proof {
            assert(views(out@) =~= start + listed_or_none(meta_texts(items@)));
        }
        return;
    }
    let mut i: usize = 0;
    while i < items.len()
        invariant
            i <= items@.len(),
            items@.len() > 0,
            views(out@) == start + meta_texts(items@).take(i as int),
        decreases items@.len() - i,
    {
        let t = items[i].to_text();
        let ghost before = views(out@);
        out.push(t);
        proof {
            assert(views(out@) =~= before.push(t@));
            assert(meta_texts(items@).take(i + 1) =~= meta_texts(items@).take(i as int).push(t@));
        }
        i = i + 1;
    }
    proof {
        assert(meta_texts(items@).take(items@.len() as int) =~= meta_texts(items@));
    }
}

impl CmdCallHandler {
    /// The connection status report for this side's address and the live and dead
    /// connections.
    pub fn conn_status_report(this: &PeerAddr, live: &Vec<MetaSocketAddr>, dead: &Vec<MetaSocketAddr>) -> (r: Vec<String>)
        ensures
            views(r@) == report_lines(this@, meta_texts(live@), meta_texts(dead@)),
    {
        let mut out: Vec<String> = Vec::new();
        out.push(String::from_str("-----------------系统状态-------------------"));
        let mut at = String::from_str("应用程序监听于：");
        at.append(this.as_str());
        out.push(at);
        out.push(String::from_str("-----------------存活连接-------------------"));
        proof {
            assert(views(out@) =~= seq![
                "-----------------系统状态-------------------"@,
                "应用程序监听于："@ + this@,
                "-----------------存活连接-------------------"@,
            ]);
        }
        push_listed(&mut out, live);
        let ghost mid = views(out@);
        out.push(String::from_str("-----------------暂离连接-------------------"));
        proof {
            assert(views(out@) =~= mid.push("-----------------暂离连接-------------------"@));
        }
        push_listed(&mut out, dead);
        proof {
            assert(views(out@) =~= report_lines(this@, meta_texts(live@), meta_texts(dead@)));
        }
        out
    }
}

} // verus!
