//! The offline bank of daily quotes.
//!
//! Complete opening and closing clauses combine into natural, unattributed sentences.
//! Choosing one happens locally and needs no network.

use crate::text::{append_str, chars_of, string_from_chars};
use vstd::prelude::*;

verus! {

/// Forty-eight openings and twenty-four endings.
pub const OPENING_COUNT: usize = 48;

pub const ENDING_COUNT: usize = 24;

/// Every opening combined with every ending.
pub const QUOTE_COUNT: usize = 1152;

pub open spec fn opening_text(i: int) -> Seq<char> {
    if i == 0 {
        "把复杂的事情拆小"@
    } else if i == 1 {
        "认真完成眼前的一步"@
    } else if i == 2 {
        "真正的进步来自持续行动"@
    } else if i == 3 {
        "保持好奇，也保持耐心"@
    } else if i == 4 {
        "给重要的事情留出时间"@
    } else if i == 5 {
        "先建立秩序，再追求速度"@
    } else if i == 6 {
        "清醒地选择自己的方向"@
    } else if i == 7 {
        "允许计划随着事实调整"@
    } else if i == 8 {
        "把注意力放回可以改变的部分"@
    } else if i == 9 {
        "长期积累胜过短暂冲刺"@
    } else if i == 10 {
        "每一次复盘都在缩短弯路"@
    } else if i == 11 {
        "做好小事，也是在完成大事"@
    } else if i == 12 {
        "在安静中整理自己的判断"@
    } else if i == 13 {
        "不急于证明，先认真完成"@
    } else if i == 14 {
        "让行动比焦虑更早发生"@
    } else if i == 15 {
        "今天的专注会成为明天的从容"@
    } else if i == 16 {
        "接受不完美的开始"@
    } else if i == 17 {
        "稳定的节奏比偶尔用力更可靠"@
    } else if i == 18 {
        "把目标写清楚，把步骤做扎实"@
    } else if i == 19 {
        "尊重时间，也尊重自己的感受"@
    } else if i == 20 {
        "面对变化时保留一点弹性"@
    } else if i == 21 {
        "从真实的问题出发"@
    } else if i == 22 {
        "在忙碌里守住最重要的一件事"@
    } else if i == 23 {
        "让每个选择都更接近想要的生活"@
    } else if i == 24 {
        "把今天过得具体一些"@
    } else if i == 25 {
        "先解决真正影响结果的问题"@
    } else if i == 26 {
        "在重复中寻找可以改进的细节"@
    } else if i == 27 {
        "把心力用在值得的地方"@
    } else if i == 28 {
        "给正在成长的自己多一点耐心"@
    } else if i == 29 {
        "用清晰的边界保护专注"@
    } else if i == 30 {
        "先迈出一步，再修正方向"@
    } else if i == 31 {
        "把经验沉淀成下一次的从容"@
    } else if i == 32 {
        "愿意倾听，也敢于做出判断"@
    } else if i == 33 {
        "让重要的事拥有完整的时间"@
    } else if i == 34 {
        "照顾好状态，再处理复杂的问题"@
    } else if i == 35 {
        "把困难看成需要拆解的信息"@
    } else if i == 36 {
        "在纷杂里重新找到主线"@
    } else if i == 37 {
        "保持谦逊，也相信自己的积累"@
    } else if i == 38 {
        "把想法落实成一个小小的行动"@
    } else if i == 39 {
        "为值得的目标保留韧性"@
    } else if i == 40 {
        "不被一时的结果定义"@
    } else if i == 41 {
        "在每次尝试后留下新的经验"@
    } else if i == 42 {
        "用行动回应心里的期待"@
    } else if i == 43 {
        "把普通的一天过得有分寸"@
    } else if i == 44 {
        "允许自己停下来重新校准"@
    } else if i == 45 {
        "从容来自一次次认真准备"@
    } else if i == 46 {
        "让选择忠于内心也尊重现实"@
    } else {
        "珍惜此刻仍然拥有的可能"@
    }
}

pub open spec fn ending_text(i: int) -> Seq<char> {
    if i == 0 {
        "时间会让答案逐渐清晰"@
    } else if i == 1 {
        "微小的完成也值得被看见"@
    } else if i == 2 {
        "方向正确时慢一点也没关系"@
    } else if i == 3 {
        "持续本身就是一种力量"@
    } else if i == 4 {
        "你会比昨天更接近目标"@
    } else if i == 5 {
        "专注会替你过滤无关的噪声"@
    } else if i == 6 {
        "耐心能把困难变成可以处理的步骤"@
    } else if i == 7 {
        "好的结果往往藏在日常重复里"@
    } else if i == 8 {
        "行动会带来新的信息和选择"@
    } else if i == 9 {
        "清晰比仓促更接近效率"@
    } else if i == 10 {
        "给自己留一点思考和呼吸的空间"@
    } else if i == 11 {
        "长期主义终会显出它的价值"@
    } else if i == 12 {
        "完成比想象中的完美更重要"@
    } else if i == 13 {
        "节奏稳定之后，困难也会变轻"@
    } else if i == 14 {
        "认真生活的人自有自己的光"@
    } else if i == 15 {
        "今天仍然可以成为新的起点"@
    } else if i == 16 {
        "踏实会让远方慢慢靠近"@
    } else if i == 17 {
        "每一步都在塑造未来的自己"@
    } else if i == 18 {
        "慢下来也可能是更好的前进"@
    } else if i == 19 {
        "内心笃定时脚步自然轻盈"@
    } else if i == 20 {
        "答案常常出现在行动之后"@
    } else if i == 21 {
        "你已经在路上了"@
    } else if i == 22 {
        "平凡的坚持终会留下痕迹"@
    } else {
        "留白也能为下一步积蓄力量"@
    }
}

fn opening(i: usize) -> (r: &'static str)
    requires
        i < 48,
    ensures
        r@ == opening_text(i as int),
{
    if i == 0 {
        "把复杂的事情拆小"
    } else if i == 1 {
        "认真完成眼前的一步"
    } else if i == 2 {
        "真正的进步来自持续行动"
    } else if i == 3 {
        "保持好奇，也保持耐心"
    } else if i == 4 {
        "给重要的事情留出时间"
    } else if i == 5 {
        "先建立秩序，再追求速度"
    } else if i == 6 {
        "清醒地选择自己的方向"
    } else if i == 7 {
        "允许计划随着事实调整"
    } else if i == 8 {
        "把注意力放回可以改变的部分"
    } else if i == 9 {
        "长期积累胜过短暂冲刺"
    } else if i == 10 {
        "每一次复盘都在缩短弯路"
    } else if i == 11 {
        "做好小事，也是在完成大事"
    } else if i == 12 {
        "在安静中整理自己的判断"
    } else if i == 13 {
        "不急于证明，先认真完成"
    } else if i == 14 {
        "让行动比焦虑更早发生"
    } else if i == 15 {
        "今天的专注会成为明天的从容"
    } else if i == 16 {
        "接受不完美的开始"
    } else if i == 17 {
        "稳定的节奏比偶尔用力更可靠"
    } else if i == 18 {
        "把目标写清楚，把步骤做扎实"
    } else if i == 19 {
        "尊重时间，也尊重自己的感受"
    } else if i == 20 {
        "面对变化时保留一点弹性"
    } else if i == 21 {
        "从真实的问题出发"
    } else if i == 22 {
        "在忙碌里守住最重要的一件事"
    } else if i == 23 {
        "让每个选择都更接近想要的生活"
    } else if i == 24 {
        "把今天过得具体一些"
    } else if i == 25 {
        "先解决真正影响结果的问题"
    } else if i == 26 {
        "在重复中寻找可以改进的细节"
    } else if i == 27 {
        "把心力用在值得的地方"
    } else if i == 28 {
        "给正在成长的自己多一点耐心"
    } else if i == 29 {
        "用清晰的边界保护专注"
    } else if i == 30 {
        "先迈出一步，再修正方向"
    } else if i == 31 {
        "把经验沉淀成下一次的从容"
    } else if i == 32 {
        "愿意倾听，也敢于做出判断"
    } else if i == 33 {
        "让重要的事拥有完整的时间"
    } else if i == 34 {
        "照顾好状态，再处理复杂的问题"
    } else if i == 35 {
        "把困难看成需要拆解的信息"
    } else if i == 36 {
        "在纷杂里重新找到主线"
    } else if i == 37 {
        "保持谦逊，也相信自己的积累"
    } else if i == 38 {
        "把想法落实成一个小小的行动"
    } else if i == 39 {
        "为值得的目标保留韧性"
    } else if i == 40 {
        "不被一时的结果定义"
    } else if i == 41 {
        "在每次尝试后留下新的经验"
    } else if i == 42 {
        "用行动回应心里的期待"
    } else if i == 43 {
        "把普通的一天过得有分寸"
    } else if i == 44 {
        "允许自己停下来重新校准"
    } else if i == 45 {
        "从容来自一次次认真准备"
    } else if i == 46 {
        "让选择忠于内心也尊重现实"
    } else {
        "珍惜此刻仍然拥有的可能"
    }
}

fn ending(i: usize) -> (r: &'static str)
    requires
        i < 24,
    ensures
        r@ == ending_text(i as int),
{
    if i == 0 {
        "时间会让答案逐渐清晰"
    } else if i == 1 {
        "微小的完成也值得被看见"
    } else if i == 2 {
        "方向正确时慢一点也没关系"
    } else if i == 3 {
        "持续本身就是一种力量"
    } else if i == 4 {
        "你会比昨天更接近目标"
    } else if i == 5 {
        "专注会替你过滤无关的噪声"
    } else if i == 6 {
        "耐心能把困难变成可以处理的步骤"
    } else if i == 7 {
        "好的结果往往藏在日常重复里"
    } else if i == 8 {
        "行动会带来新的信息和选择"
    } else if i == 9 {
        "清晰比仓促更接近效率"
    } else if i == 10 {
        "给自己留一点思考和呼吸的空间"
    } else if i == 11 {
        "长期主义终会显出它的价值"
    } else if i == 12 {
        "完成比想象中的完美更重要"
    } else if i == 13 {
        "节奏稳定之后，困难也会变轻"
    } else if i == 14 {
        "认真生活的人自有自己的光"
    } else if i == 15 {
        "今天仍然可以成为新的起点"
    } else if i == 16 {
        "踏实会让远方慢慢靠近"
    } else if i == 17 {
        "每一步都在塑造未来的自己"
    } else if i == 18 {
        "慢下来也可能是更好的前进"
    } else if i == 19 {
        "内心笃定时脚步自然轻盈"
    } else if i == 20 {
        "答案常常出现在行动之后"
    } else if i == 21 {
        "你已经在路上了"
    } else if i == 22 {
        "平凡的坚持终会留下痕迹"
    } else {
        "留白也能为下一步积蓄力量"
    }
}

/// The quote with an index: opening `index % 48`, then ending `(index / 48) % 24`.
pub open spec fn quote_text(index: int) -> Seq<char> {
    opening_text(index % 48) + "，"@ + ending_text((index / 48) % 24) + "。"@
}

pub fn quote_at(index: usize) -> (r: String)
    ensures
        r@ == quote_text(index as int),
{
    let mut v = chars_of(opening(index % OPENING_COUNT));
    append_str(&mut v, "，");
    append_str(&mut v, ending((index / OPENING_COUNT) % ENDING_COUNT));
    append_str(&mut v, "。");
    string_from_chars(&v)
}

/// Mixes the clock, the process id and a sequence number into one well-spread number
/// (the finaliser of SplitMix64), so that launches close together still differ.
pub open spec fn mix(nanos: u64, pid: u32, sequence: u64) -> u64 {
    let m0 = nanos ^ ((pid as u64) << 32u64) ^ sequence;
    let m1 = m0 ^ (m0 >> 30u64);
    let m2 = m1.wrapping_mul(0xbf58_476d_1ce4_e5b9u64);
    let m3 = m2 ^ (m2 >> 27u64);
    let m4 = m3.wrapping_mul(0x94d0_49bb_1331_11ebu64);
    m4 ^ (m4 >> 31u64)
}

/// The quote picked for a clock reading (nanoseconds since the Unix epoch), a process id and
/// a sequence number. It is always one of the bank's quotes.
pub fn quote_for(nanos: u64, pid: u32, sequence: u64) -> (r: String)
    ensures
        r@ == quote_text(((mix(nanos, pid, sequence) as usize) % QUOTE_COUNT) as int),
        exists|i: int| 0 <= i < QUOTE_COUNT && r@ == quote_text(i),
{
    let mut mixed: u64 = nanos ^ ((pid as u64) << 32u64) ^ sequence;
    mixed = mixed ^ (mixed >> 30u64);
    mixed = mixed.wrapping_mul(0xbf58_476d_1ce4_e5b9u64);
    mixed = mixed ^ (mixed >> 27u64);
    mixed = mixed.wrapping_mul(0x94d0_49bb_1331_11ebu64);
    mixed = mixed ^ (mixed >> 31u64);
    let index = (mixed as usize) % QUOTE_COUNT;
    let r = quote_at(index);
    assert(0 <= index < QUOTE_COUNT && r@ == quote_text(index as int));
    r
}

} // verus!
