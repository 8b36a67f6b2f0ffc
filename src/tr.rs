//! English interface text for the Chinese labels.
use vstd::prelude::*;

verus! {

/// Pairs of a Chinese label and its English text; a later pair for the
/// same label overrides an earlier one.
pub open spec fn tr_table() -> Seq<(Seq<char>, Seq<char>)> {
    seq![
        ("出错"@, "Error"@),
        ("原因"@, "Reason"@),
        ("删除成功"@, "Delete success"@),
        ("删除失败"@, "Delete failed"@),
        ("添加成功"@, "Add success"@),
        ("添加失败"@, "Add failed"@),
        ("复制失败"@, "Copy failed"@),
        ("复制成功"@, "Copy success"@),
        ("清空失败"@, "Delete failed"@),
        ("清空成功"@, "Delete success"@),
        ("保存失败"@, "Save failed"@),
        ("保存成功"@, "Save success"@),
        ("重置成功"@, "Reset success"@),
        ("刷新成功"@, "Flush success"@),
        ("发送失败"@, "Send failed"@),
        ("下载成功"@, "Download success"@),
        ("下载失败"@, "Download failed"@),
        ("加载失败"@, "Load failed"@),
        ("密码错误"@, "Password Invalid"@),
        ("正在重试..."@, "Retrying..."@),
        ("正在下载..."@, "Downloading..."@),
        ("创建账户成功"@, "Create account success"@),
        ("创建账户失败"@, "Create account failed"@),
        ("密码错误"@, "Wrong password"@),
        ("修改密码成功"@, "Change password success"@),
        ("切换网络成功"@, "Switch network success"@),
        ("非法输入"@, "Invalid input"@),
        ("生成交易失败"@, "Generate transaction failed"@),
        ("发送交易成功"@, "Send transaction success"@),
        ("发送交易失败"@, "Send transaction failed"@),
        ("非法交易"@, "Invalid transaction"@),
        ("写入成功"@, "Write file success"@),
        ("取消成功"@, "Cancel success"@),
        ("解码成功"@, "Decode success"@),
        ("文件名为空"@, "File name is empty"@),
        ("非法文件"@, "Invalid file"@),
        ("行情"@, "Latest"@),
        ("热门"@, "Trending"@),
        ("原文链接"@, "Source Link"@),
        ("刷新"@, "Refresh"@),
        ("正在刷新"@, "Refreshing"@),
        ("关于"@, "About"@),
        ("在线"@, "Online"@),
        ("正忙"@, "Busy"@),
        ("空闲"@, "Idle"@),
        ("中文"@, "En"@),
        ("排名"@, "Rank"@),
        ("代币"@, "Symbol"@),
        ("价格"@, "Price"@),
    ]
}

/// The English text for `text` by the last pair of `t` that names it.
pub open spec fn lookup(t: Seq<(Seq<char>, Seq<char>)>, text: Seq<char>) -> Option<Seq<char>>
    decreases t.len(),
{
    if t.len() == 0 {
        None
    } else if t.last().0 == text {
        Some(t.last().1)
    } else {
        lookup(t.drop_last(), text)
    }
}

/// The text to show: `text` itself when `is_cn`, else its English text, or
/// `text` itself when the table has none.
pub open spec fn tr_text(is_cn: bool, text: Seq<char>) -> Seq<char> {
    if is_cn {
        text
    } else {
        match lookup(tr_table(), text) {
            Some(v) => v,
            None => text,
        }
    }
}

pub open spec fn pair_views(v: Seq<(&str, &str)>) -> Seq<(Seq<char>, Seq<char>)> {
    v.map_values(|p: (&str, &str)| (p.0@, p.1@))
}

/// The interface text for `text` in the chosen language.
pub fn tr(is_cn: bool, text: &str) -> (r: String)
    ensures
        r@ == tr_text(is_cn, text@),
{
    if is_cn {
        return text.to_owned();
    }
    let items: Vec<(&str, &str)> = vec![
        ("出错", "Error"),
        ("原因", "Reason"),
        ("删除成功", "Delete success"),
        ("删除失败", "Delete failed"),
        ("添加成功", "Add success"),
        ("添加失败", "Add failed"),
        ("复制失败", "Copy failed"),
        ("复制成功", "Copy success"),
        ("清空失败", "Delete failed"),
        ("清空成功", "Delete success"),
        ("保存失败", "Save failed"),
        ("保存成功", "Save success"),
        ("重置成功", "Reset success"),
        ("刷新成功", "Flush success"),
        ("发送失败", "Send failed"),
        ("下载成功", "Download success"),
        ("下载失败", "Download failed"),
        ("加载失败", "Load failed"),
        ("密码错误", "Password Invalid"),
        ("正在重试...", "Retrying..."),
        ("正在下载...", "Downloading..."),
        ("创建账户成功", "Create account success"),
        ("创建账户失败", "Create account failed"),
        ("密码错误", "Wrong password"),
        ("修改密码成功", "Change password success"),
        ("切换网络成功", "Switch network success"),
        ("非法输入", "Invalid input"),
        ("生成交易失败", "Generate transaction failed"),
        ("发送交易成功", "Send transaction success"),
        ("发送交易失败", "Send transaction failed"),
        ("非法交易", "Invalid transaction"),
        ("写入成功", "Write file success"),
        ("取消成功", "Cancel success"),
        ("解码成功", "Decode success"),
        ("文件名为空", "File name is empty"),
        ("非法文件", "Invalid file"),
        ("行情", "Latest"),
        ("热门", "Trending"),
        ("原文链接", "Source Link"),
        ("刷新", "Refresh"),
        ("正在刷新", "Refreshing"),
        ("关于", "About"),
        ("在线", "Online"),
        ("正忙", "Busy"),
        ("空闲", "Idle"),
        ("中文", "En"),
        ("排名", "Rank"),
        ("代币", "Symbol"),
        ("价格", "Price"),
    ];
    assert(pair_views(items@) =~= tr_table());
    let key = text.to_owned();
    let mut i: usize = items.len();
    assert(items@.subrange(0, i as int) =~= items@);
    while i > 0
        invariant
            !is_cn,
            i <= items@.len(),
            key@ == text@,
            pair_views(items@) == tr_table(),
            lookup(tr_table(), text@) == lookup(pair_views(items@.subrange(0, i as int)), text@),
        decreases i,
    {
        let ghost sub = pair_views(items@.subrange(0, i as int));
        assert(sub.last() == (items@[i - 1].0@, items@[i - 1].1@));
        let found = items[i - 1].0.to_owned();
        if found == key {
            assert(sub.last().0 == text@);
            let r = items[i - 1].1.to_owned();
            assert(r@ == sub.last().1);
            assert(sub.len() == i);
            assert(lookup(sub, text@) == Some(r@));
            return r;
        }
        assert(sub.drop_last() =~= pair_views(items@.subrange(0, i - 1)));
        i = i - 1;
    }
    text.to_owned()
}

} // verus!
