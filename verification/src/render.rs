use vstd::prelude::*;
use vstd::string::*;

use crate::PyramusError;
use crate::b64::{b64_str, b64_encode_into};
use crate::base::{Base, BaseItem};
use crate::ids::InternalId;
use crate::item::{PropItemImageData, PropItemType};
use crate::numfmt::{dec_str, dec_str_signed, milli_str, fmt_u64_into, fmt_i64_into, fmt_milli};
use crate::scene::{BaseTemplate, StageItem, tpl_has, tpl_node};
use crate::stage::{Stage, spec_path_transforms};
use crate::strutil::push_char;
use crate::transform::RelativeTransform;

verus! {

/// The lower-case hexadecimal digit character for a value below sixteen.
pub open spec fn hex_char(d: int) -> char {
    if d < 10 {
        ((48 + d) as u8) as char
    } else {
        ((87 + d) as u8) as char
    }
}

/// The hash-prefixed hexadecimal text of an RGB color.
pub open spec fn color_hex(c: (u8, u8, u8)) -> Seq<char> {
    seq![
        '#',
        hex_char(c.0 as int / 16),
        hex_char(c.0 as int % 16),
        hex_char(c.1 as int / 16),
        hex_char(c.1 as int % 16),
        hex_char(c.2 as int / 16),
        hex_char(c.2 as int % 16),
    ]
}

/// One character of document text, with the five XML metacharacters written
/// as entities.
pub open spec fn esc_char(c: char) -> Seq<char> {
    if c == '&' {
        "&amp;"@
    } else if c == '<' {
        "&lt;"@
    } else if c == '>' {
        "&gt;"@
    } else if c == '"' {
        "&quot;"@
    } else if c == '\'' {
        "&apos;"@
    } else {
        seq![c]
    }
}

/// Document text with XML metacharacters escaped.
pub open spec fn xml_escape(s: Seq<char>) -> Seq<char>
    decreases s.len(),
{
    if s.len() == 0 {
        Seq::empty()
    } else {
        esc_char(s[0]) + xml_escape(s.skip(1))
    }
}

fn hex_digit(d: u8) -> (c: char)
    requires
        d < 16,
    ensures
        c == hex_char(d as int),
{
    if d < 10 {
        (48 + d) as char
    } else {
        (87 + d) as char
    }
}

/// Appends the hash-prefixed hexadecimal text of a color.
fn color_hex_into(c: (u8, u8, u8), s: &mut String)
    ensures
        final(s)@ == old(s)@ + color_hex(c),
{
    push_char(s, '#');
    push_char(s, hex_digit(c.0 / 16));
    push_char(s, hex_digit(c.0 % 16));
    push_char(s, hex_digit(c.1 / 16));
    push_char(s, hex_digit(c.1 % 16));
    push_char(s, hex_digit(c.2 / 16));
    push_char(s, hex_digit(c.2 % 16));
    proof {
        assert(final(s)@ =~= old(s)@ + color_hex(c));
    }
}

/// Appends document text with XML metacharacters escaped.
fn xml_escape_into(text: &str, s: &mut String)
    ensures
        final(s)@ == old(s)@ + xml_escape(text@),
{
    let n = text.unicode_len();
    let mut j: usize = 0;
    proof {
        assert(text@.skip(0) =~= text@);
    }
    while j < n
        invariant
            n == text@.len(),
            j <= n,
            s@ + xml_escape(text@.skip(j as int)) == old(s)@ + xml_escape(text@),
        decreases n - j,
    {
        let c = text.get_char(j);
        proof {
            assert(text@.skip(j as int)[0] == c);
            assert(text@.skip(j as int).skip(1) =~= text@.skip(j as int + 1));
        }
        if c == '&' {
            s.append("&amp;");
        } else if c == '<' {
            s.append("&lt;");
        } else if c == '>' {
            s.append("&gt;");
        } else if c == '"' {
            s.append("&quot;");
        } else if c == '\'' {
            s.append("&apos;");
        } else {
            push_char(s, c);
        }
        proof {
            assert(s@ + xml_escape(text@.skip(j as int + 1)) =~= old(s)@ + xml_escape(text@));
        }
        j = j + 1;
    }
    proof {
        assert(xml_escape(text@.skip(n as int)) =~= Seq::<char>::empty());
        assert(final(s)@ =~= old(s)@ + xml_escape(text@));
    }
}

/// The SVG transform list entry of one relative transform: translate, then
/// rotate, then scale, applied to local coordinates in that order.
pub open spec fn transform_attr(tr: RelativeTransform) -> Seq<char> {
    "translate("@ + dec_str_signed(tr.position.0 as int) + " "@ + dec_str_signed(
        tr.position.1 as int,
    ) + ") rotate("@ + dec_str_signed(tr.rotation as int) + ") scale("@ + milli_str(
        tr.scale.0 as int,
    ) + " "@ + milli_str(tr.scale.1 as int) + ")"@
}

/// Appends the SVG transform list entry of one relative transform.
fn transform_attr_into(tr: &RelativeTransform, s: &mut String)
    ensures
        final(s)@ == old(s)@ + transform_attr(*tr),
{
    s.append("translate(");
    fmt_i64_into(tr.position.0, s);
    s.append(" ");
    fmt_i64_into(tr.position.1, s);
    s.append(") rotate(");
    fmt_i64_into(tr.rotation, s);
    s.append(") scale(");
    let sx = fmt_milli(tr.scale.0);
    s.append(sx.as_str());
    s.append(" ");
    let sy = fmt_milli(tr.scale.1);
    s.append(sy.as_str());
    s.append(")");
    proof {
        assert(final(s)@ =~= old(s)@ + transform_attr(*tr));
    }
}

/// The SVG text of a leaf payload: a middle-anchored text element carrying
/// family, size, style, the fixed weight and the fill color, or an image
/// element carrying the viewport size and the payload as a base-64 data
/// address.
pub open spec fn leaf_svg(p: PropItemType) -> Seq<char> {
    match p {
        PropItemType::Text(t) => "<text text-anchor=\"middle\" font-family=\""@ + xml_escape(
            t.font_family@,
        ) + "\" font-size=\""@ + dec_str(t.font_size as int) + "\" font-style=\""@ + (if t.italic {
            "italic"@
        } else {
            "normal"@
        }) + "\" font-weight=\"12\" fill=\""@ + color_hex(t.color) + "\">"@ + xml_escape(t.text@)
            + "</text>"@,
        PropItemType::Image(im) => "<image width=\""@ + dec_str(im.viewport_width as int)
            + "\" height=\""@ + dec_str(im.viewport_height as int) + "\" href=\"data:"@ + (
        match im.data {
            PropItemImageData::Png(b) => "image/png;base64,"@ + b64_str(b@),
            PropItemImageData::Jpeg(b) => "image/jpeg;base64,"@ + b64_str(b@),
            PropItemImageData::Gif(b) => "image/gif;base64,"@ + b64_str(b@),
            PropItemImageData::Svg(text) => "image/svg+xml;base64,"@ + b64_str(
                vstd::utf8::encode_utf8(text@),
            ),
        }) + "\"/>"@,
    }
}

/// Appends the SVG text of a leaf payload.
#[verifier::rlimit(100)]
fn leaf_svg_into(p: &PropItemType, s: &mut String)
    ensures
        final(s)@ == old(s)@ + leaf_svg(*p),
{
    match p {
        PropItemType::Text(t) => {
            s.append("<text text-anchor=\"middle\" font-family=\"");
            xml_escape_into(t.font_family.as_str(), s);
            s.append("\" font-size=\"");
            fmt_u64_into(t.font_size as u64, s);
            s.append("\" font-style=\"");
            if t.italic {
                s.append("italic");
            } else {
                s.append("normal");
            }
            s.append("\" font-weight=\"12\" fill=\"");
            color_hex_into(t.color, s);
            s.append("\">");
            xml_escape_into(t.text.as_str(), s);
            s.append("</text>");
            proof {
                assert(final(s)@ =~= old(s)@ + leaf_svg(*p));
            }
        },
        PropItemType::Image(im) => {
            s.append("<image width=\"");
            fmt_u64_into(im.viewport_width as u64, s);
            s.append("\" height=\"");
            fmt_u64_into(im.viewport_height as u64, s);
            s.append("\" href=\"data:");
            match &im.data {
                PropItemImageData::Png(b) => {
                    s.append("image/png;base64,");
                    b64_encode_into(b, s);
                },
                PropItemImageData::Jpeg(b) => {
                    s.append("image/jpeg;base64,");
                    b64_encode_into(b, s);
                },
                PropItemImageData::Gif(b) => {
                    s.append("image/gif;base64,");
                    b64_encode_into(b, s);
                },
                PropItemImageData::Svg(text) => {
                    s.append("image/svg+xml;base64,");
                    let bytes = text.as_str().as_bytes_vec();
                    b64_encode_into(&bytes, s);
                },
            }
            s.append("\"/>");
            proof {
                assert(final(s)@ =~= old(s)@ + leaf_svg(*p));
            }
        },
    }
}

} // verus!

verus! {

/// The SVG text below one leaf node of a prop template: a group carrying
/// the node's relative transform, the leaf's own text, then each child's
/// subtree in child order.
pub open spec fn prop_node_svg(t: BaseTemplate, id: InternalId, fuel: nat) -> Seq<char>
    decreases fuel, 0int,
{
    if fuel == 0 || !t.has(id) {
        Seq::empty()
    } else {
        "<g transform=\""@ + transform_attr(t.node(id).spec_transform()) + "\">"@ + (match t.node(
            id,
        ) {
            StageItem::PropItem(pi) => leaf_svg(pi.item),
            StageItem::Prop(_) => Seq::empty(),
        }) + prop_list_svg(t, t.node(id).spec_children(), (fuel - 1) as nat) + "</g>"@
    }
}

/// The concatenated SVG text below the listed nodes of a prop template.
pub open spec fn prop_list_svg(t: BaseTemplate, cs: Seq<InternalId>, fuel: nat) -> Seq<char>
    decreases fuel, 1int, cs.len(),
{
    if cs.len() == 0 {
        Seq::empty()
    } else {
        prop_node_svg(t, cs[0], fuel) + prop_list_svg(t, cs.skip(1), fuel)
    }
}

/// The SVG text below one prop node of a blueprint template: a group
/// carrying the node's relative transform, the prop's own template lowered
/// from its root, then each child prop's subtree in child order.
pub open spec fn bp_node_svg(t: BaseTemplate, id: InternalId, fuel: nat) -> Seq<char>
    decreases fuel, 0int,
{
    if fuel == 0 || !t.has(id) {
        Seq::empty()
    } else {
        "<g transform=\""@ + transform_attr(t.node(id).spec_transform()) + "\">"@ + (match t.node(
            id,
        ) {
            StageItem::Prop(p) => prop_node_svg(p.template, p.template.root, p.template.s().len() as nat),
            StageItem::PropItem(_) => Seq::empty(),
        }) + bp_list_svg(t, t.node(id).spec_children(), (fuel - 1) as nat) + "</g>"@
    }
}

/// The concatenated SVG text below the listed nodes of a blueprint template.
pub open spec fn bp_list_svg(t: BaseTemplate, cs: Seq<InternalId>, fuel: nat) -> Seq<char>
    decreases fuel, 1int, cs.len(),
{
    if cs.len() == 0 {
        Seq::empty()
    } else {
        bp_node_svg(t, cs[0], fuel) + bp_list_svg(t, cs.skip(1), fuel)
    }
}

/// Extending the listed nodes by one extends their concatenated SVG text at
/// the end.
pub proof fn lemma_prop_list_svg_snoc(t: BaseTemplate, cs: Seq<InternalId>, j: int, fuel: nat)
    requires
        0 <= j < cs.len(),
    ensures
        prop_list_svg(t, cs.subrange(0, j + 1), fuel) == prop_list_svg(t, cs.subrange(0, j), fuel)
            + prop_node_svg(t, cs[j], fuel),
    decreases j,
{
    let pre = cs.subrange(0, j + 1);
    if j == 0 {
        assert(pre[0] == cs[0]);
        assert(pre.skip(1) =~= Seq::<InternalId>::empty());
        assert(cs.subrange(0, 0) =~= Seq::<InternalId>::empty());
        assert(prop_node_svg(t, cs[0], fuel) + Seq::<char>::empty() =~= prop_node_svg(
            t,
            cs[0],
            fuel,
        ));
        assert(Seq::<char>::empty() + prop_node_svg(t, cs[0], fuel) =~= prop_node_svg(
            t,
            cs[0],
            fuel,
        ));
    } else {
        let tail = cs.skip(1);
        assert(pre[0] == cs[0]);
        assert(pre.skip(1) =~= tail.subrange(0, j));
        assert(cs.subrange(0, j).skip(1) =~= tail.subrange(0, j - 1));
        assert(cs.subrange(0, j)[0] == cs[0]);
        lemma_prop_list_svg_snoc(t, tail, j - 1, fuel);
        assert(tail[j - 1] == cs[j]);
        assert((prop_node_svg(t, cs[0], fuel) + prop_list_svg(t, tail.subrange(0, j - 1), fuel))
            + prop_node_svg(t, cs[j], fuel) =~= prop_node_svg(t, cs[0], fuel) + (prop_list_svg(
            t,
            tail.subrange(0, j - 1),
            fuel,
        ) + prop_node_svg(t, cs[j], fuel)));
    }
}

/// Extending the listed nodes by one extends their concatenated SVG text at
/// the end.
pub proof fn lemma_bp_list_svg_snoc(t: BaseTemplate, cs: Seq<InternalId>, j: int, fuel: nat)
    requires
        0 <= j < cs.len(),
    ensures
        bp_list_svg(t, cs.subrange(0, j + 1), fuel) == bp_list_svg(t, cs.subrange(0, j), fuel)
            + bp_node_svg(t, cs[j], fuel),
    decreases j,
{
    let pre = cs.subrange(0, j + 1);
    if j == 0 {
        assert(pre[0] == cs[0]);
        assert(pre.skip(1) =~= Seq::<InternalId>::empty());
        assert(cs.subrange(0, 0) =~= Seq::<InternalId>::empty());
        assert(bp_node_svg(t, cs[0], fuel) + Seq::<char>::empty() =~= bp_node_svg(t, cs[0], fuel));
        assert(Seq::<char>::empty() + bp_node_svg(t, cs[0], fuel) =~= bp_node_svg(t, cs[0], fuel));
    } else {
        let tail = cs.skip(1);
        assert(pre[0] == cs[0]);
        assert(pre.skip(1) =~= tail.subrange(0, j));
        assert(cs.subrange(0, j).skip(1) =~= tail.subrange(0, j - 1));
        assert(cs.subrange(0, j)[0] == cs[0]);
        lemma_bp_list_svg_snoc(t, tail, j - 1, fuel);
        assert(tail[j - 1] == cs[j]);
        assert((bp_node_svg(t, cs[0], fuel) + bp_list_svg(t, tail.subrange(0, j - 1), fuel))
            + bp_node_svg(t, cs[j], fuel) =~= bp_node_svg(t, cs[0], fuel) + (bp_list_svg(
            t,
            tail.subrange(0, j - 1),
            fuel,
        ) + bp_node_svg(t, cs[j], fuel)));
    }
}

/// Appends the SVG text below one leaf node of a prop template, given the
/// ghost path of its strict ancestors.
#[verifier::rlimit(100)]
fn prop_node_svg_into(
    t: &BaseTemplate,
    id: InternalId,
    anc: Ghost<Seq<InternalId>>,
    s: &mut String,
)
    requires
        t.wf(),
        t.has(id),
        anc@.no_duplicates(),
        !anc@.contains(id),
        forall|k: int| 0 <= k < anc@.len() ==> t.has(#[trigger] anc@[k]),
        anc@.len() == 0 ==> id == t.root,
        anc@.len() > 0 ==> anc@[0] == t.root && t.node(id).spec_parent() == Some(anc@.last()),
        forall|k: int|
            0 < k < anc@.len() ==> t.node(#[trigger] anc@[k]).spec_parent() == Some(anc@[k - 1]),
    ensures
        final(s)@ == old(s)@ + prop_node_svg(*t, id, (t.s().len() - anc@.len()) as nat),
    decreases t.s().len() - anc@.len(),
{
    proof {
        t.lemma_wf_facts();
        let all = anc@.push(id);
        assert(all.no_duplicates());
        assert forall|x: InternalId| all.to_set().contains(x) implies crate::scene::tpl_keys(
            t.s(),
        ).to_set().contains(x) by {
            let k = choose|k: int| 0 <= k < all.len() && all[k] == x;
            assert(t.has(x));
            let i = choose|i: int| 0 <= i < t.s().len() && (#[trigger] t.s()[i]).0 == x;
            assert(crate::scene::tpl_keys(t.s())[i] == x);
        }
        all.unique_seq_to_set();
        crate::scene::tpl_keys(t.s()).lemma_cardinality_of_set();
        vstd::set_lib::lemma_len_subset(
            all.to_set(),
            crate::scene::tpl_keys(t.s()).to_set(),
        );
        assert(anc@.len() + 1 <= t.s().len());
    }
    let ghost fuel = (t.s().len() - anc@.len()) as nat;
    let node = t.get(id).unwrap();
    s.append("<g transform=\"");
    let tr = node.get_relative_transform();
    transform_attr_into(&tr, s);
    s.append("\">");
    match node {
        StageItem::PropItem(pi) => {
            leaf_svg_into(&pi.item, s);
        },
        StageItem::Prop(_) => {
            proof {
                let i = choose|i: int| 0 <= i < t.s().len() && (#[trigger] t.s()[i]).0 == id;
                crate::scene::lemma_node_at(t.s(), i);
                assert(false);
            }
        },
    }
    let node = t.get(id).unwrap();
    let children = node.get_children();
    let ghost cs = t.node(id).spec_children();
    let ghost mid = s@;
    let mut j: usize = 0;
    proof {
        assert(cs.subrange(0, 0) =~= Seq::<InternalId>::empty());
        assert(mid + prop_list_svg(*t, cs.subrange(0, 0), (fuel - 1) as nat) =~= mid);
    }
    while j < children.len()
        invariant
            t.wf(),
            t.has(id),
            children@ == cs,
            cs == t.node(id).spec_children(),
            j <= cs.len(),
            anc@.no_duplicates(),
            !anc@.contains(id),
            forall|k: int| 0 <= k < anc@.len() ==> t.has(#[trigger] anc@[k]),
            anc@.len() == 0 ==> id == t.root,
            anc@.len() > 0 ==> anc@[0] == t.root && t.node(id).spec_parent() == Some(anc@.last()),
            forall|k: int|
                0 < k < anc@.len() ==> t.node(#[trigger] anc@[k]).spec_parent() == Some(
                    anc@[k - 1],
                ),
            anc@.len() + 1 <= t.s().len(),
            fuel == (t.s().len() - anc@.len()) as nat,
            fuel >= 1,
            s@ == mid + prop_list_svg(*t, cs.subrange(0, j as int), (fuel - 1) as nat),
        decreases cs.len() - j,
    {
        let c = children[j];
        proof {
            t.lemma_wf_facts();
            assert(cs.contains(c)) by {
                assert(cs[j as int] == c);
            }
            assert(t.has(c) && t.node(c).spec_parent() == Some(id));
            let anc2 = anc@.push(id);
            assert(anc2[anc@.len() as int] == id);
            assert(!anc2.contains(c)) by {
                if anc2.contains(c) {
                    let k = choose|k: int| 0 <= k < anc2.len() && anc2[k] == c;
                    if k == anc@.len() as int {
                        crate::reach::lemma_no_cycle1(t.s(), t.root, id);
                    } else if k == 0 {
                        assert(c == t.root);
                        assert(t.node(t.root).spec_parent() is None);
                    } else {
                        assert(anc@[k] == c);
                        assert(t.node(c).spec_parent() == Some(anc@[k - 1]));
                        assert(anc@[k - 1] == id);
                        assert(anc@.contains(id));
                    }
                }
            }
            assert(anc2.no_duplicates());
            assert(anc2[0] == (if anc@.len() == 0 {
                id
            } else {
                anc@[0]
            }));
            assert(anc2.last() == id);
            assert forall|k: int| 0 < k < anc2.len() implies t.node(
                #[trigger] anc2[k],
            ).spec_parent() == Some(anc2[k - 1]) by {
                if k < anc@.len() {
                    assert(anc2[k] == anc@[k] && anc2[k - 1] == anc@[k - 1]);
                } else {
                    assert(anc2[k] == id);
                    if anc@.len() > 0 {
                        assert(anc2[k - 1] == anc@.last());
                    }
                }
            }
        }
        prop_node_svg_into(t, c, Ghost(anc@.push(id)), s);
        proof {
            lemma_prop_list_svg_snoc(*t, cs, j as int, (fuel - 1) as nat);
        }
        j = j + 1;
    }
    s.append("</g>");
    proof {
        assert(cs.subrange(0, cs.len() as int) =~= cs);
        assert(final(s)@ =~= old(s)@ + prop_node_svg(*t, id, fuel));
    }
}

} // verus!

verus! {

/// Appends the SVG text below one prop node of a blueprint template, given
/// the ghost path of its strict ancestors.
#[verifier::rlimit(100)]
fn bp_node_svg_into(t: &BaseTemplate, id: InternalId, anc: Ghost<Seq<InternalId>>, s: &mut String)
    requires
        t.wf_blueprint(),
        t.has(id),
        anc@.no_duplicates(),
        !anc@.contains(id),
        forall|k: int| 0 <= k < anc@.len() ==> t.has(#[trigger] anc@[k]),
        anc@.len() == 0 ==> id == t.root,
        anc@.len() > 0 ==> anc@[0] == t.root && t.node(id).spec_parent() == Some(anc@.last()),
        forall|k: int|
            0 < k < anc@.len() ==> t.node(#[trigger] anc@[k]).spec_parent() == Some(anc@[k - 1]),
    ensures
        final(s)@ == old(s)@ + bp_node_svg(*t, id, (t.s().len() - anc@.len()) as nat),
    decreases t.s().len() - anc@.len(),
{
    proof {
        t.lemma_wf_facts();
        let all = anc@.push(id);
        assert(all.no_duplicates());
        assert forall|x: InternalId| all.to_set().contains(x) implies crate::scene::tpl_keys(
            t.s(),
        ).to_set().contains(x) by {
            let k = choose|k: int| 0 <= k < all.len() && all[k] == x;
            assert(t.has(x));
            let i = choose|i: int| 0 <= i < t.s().len() && (#[trigger] t.s()[i]).0 == x;
            assert(crate::scene::tpl_keys(t.s())[i] == x);
        }
        all.unique_seq_to_set();
        crate::scene::tpl_keys(t.s()).lemma_cardinality_of_set();
        vstd::set_lib::lemma_len_subset(
            all.to_set(),
            crate::scene::tpl_keys(t.s()).to_set(),
        );
        assert(anc@.len() + 1 <= t.s().len());
    }
    let ghost fuel = (t.s().len() - anc@.len()) as nat;
    let node = t.get(id).unwrap();
    s.append("<g transform=\"");
    let tr = node.get_relative_transform();
    transform_attr_into(&tr, s);
    s.append("\">");
    match node {
        StageItem::Prop(p) => {
            proof {
                let i = choose|i: int| 0 <= i < t.s().len() && (#[trigger] t.s()[i]).0 == id;
                crate::scene::lemma_node_at(t.s(), i);
                assert(p.template.wf());
                assert(p.template.has(p.template.root));
            }
            prop_node_svg_into(&p.template, p.template.root, Ghost(Seq::empty()), s);
        },
        StageItem::PropItem(_) => {
            proof {
                let i = choose|i: int| 0 <= i < t.s().len() && (#[trigger] t.s()[i]).0 == id;
                crate::scene::lemma_node_at(t.s(), i);
                assert(false);
            }
        },
    }
    let node = t.get(id).unwrap();
    let children = node.get_children();
    let ghost cs = t.node(id).spec_children();
    let ghost mid = s@;
    let mut j: usize = 0;
    proof {
        assert(cs.subrange(0, 0) =~= Seq::<InternalId>::empty());
        assert(mid + bp_list_svg(*t, cs.subrange(0, 0), (fuel - 1) as nat) =~= mid);
    }
    while j < children.len()
        invariant
            t.wf_blueprint(),
            t.has(id),
            children@ == cs,
            cs == t.node(id).spec_children(),
            j <= cs.len(),
            anc@.no_duplicates(),
            !anc@.contains(id),
            forall|k: int| 0 <= k < anc@.len() ==> t.has(#[trigger] anc@[k]),
            anc@.len() == 0 ==> id == t.root,
            anc@.len() > 0 ==> anc@[0] == t.root && t.node(id).spec_parent() == Some(anc@.last()),
            forall|k: int|
                0 < k < anc@.len() ==> t.node(#[trigger] anc@[k]).spec_parent() == Some(
                    anc@[k - 1],
                ),
            anc@.len() + 1 <= t.s().len(),
            fuel == (t.s().len() - anc@.len()) as nat,
            fuel >= 1,
            s@ == mid + bp_list_svg(*t, cs.subrange(0, j as int), (fuel - 1) as nat),
        decreases cs.len() - j,
    {
        let c = children[j];
        proof {
            t.lemma_wf_facts();
            assert(cs.contains(c)) by {
                assert(cs[j as int] == c);
            }
            assert(t.has(c) && t.node(c).spec_parent() == Some(id));
            let anc2 = anc@.push(id);
            assert(anc2[anc@.len() as int] == id);
            assert(!anc2.contains(c)) by {
                if anc2.contains(c) {
                    let k = choose|k: int| 0 <= k < anc2.len() && anc2[k] == c;
                    if k == anc@.len() as int {
                        crate::reach::lemma_no_cycle1(t.s(), t.root, id);
                    } else if k == 0 {
                        assert(c == t.root);
                        assert(t.node(t.root).spec_parent() is None);
                    } else {
                        assert(anc@[k] == c);
                        assert(t.node(c).spec_parent() == Some(anc@[k - 1]));
                        assert(anc@[k - 1] == id);
                        assert(anc@.contains(id));
                    }
                }
            }
            assert(anc2.no_duplicates());
            assert(anc2[0] == (if anc@.len() == 0 {
                id
            } else {
                anc@[0]
            }));
            assert(anc2.last() == id);
            assert forall|k: int| 0 < k < anc2.len() implies t.node(
                #[trigger] anc2[k],
            ).spec_parent() == Some(anc2[k - 1]) by {
                if k < anc@.len() {
                    assert(anc2[k] == anc@[k] && anc2[k - 1] == anc@[k - 1]);
                } else {
                    assert(anc2[k] == id);
                    if anc@.len() > 0 {
                        assert(anc2[k - 1] == anc@.last());
                    }
                }
            }
        }
        bp_node_svg_into(t, c, Ghost(anc@.push(id)), s);
        proof {
            lemma_bp_list_svg_snoc(*t, cs, j as int, (fuel - 1) as nat);
        }
        j = j + 1;
    }
    s.append("</g>");
    proof {
        assert(cs.subrange(0, cs.len() as int) =~= cs);
        assert(final(s)@ =~= old(s)@ + bp_node_svg(*t, id, fuel));
    }
}

} // verus!

verus! {

/// The SVG transform list of a path of transforms, space-separated,
/// parent first.
pub open spec fn joined_transforms(ts: Seq<RelativeTransform>) -> Seq<char>
    decreases ts.len(),
{
    if ts.len() == 0 {
        Seq::empty()
    } else {
        transform_attr(ts[0]) + rest_transforms(ts.skip(1))
    }
}

/// The continuation of a transform list: each further entry preceded by a
/// space.
pub open spec fn rest_transforms(ts: Seq<RelativeTransform>) -> Seq<char>
    decreases ts.len(),
{
    if ts.len() == 0 {
        Seq::empty()
    } else {
        " "@ + transform_attr(ts[0]) + rest_transforms(ts.skip(1))
    }
}

/// The selection outline of one item: a group at the item's screen
/// transform holding a blue, half-opaque rectangle of the item's local
/// bounds grown by twenty pixels on every side.
pub open spec fn outline_svg(t: BaseTemplate, id: InternalId) -> Seq<char> {
    let b = tpl_node(t.s(), id).spec_local_bounds();
    "<g transform=\""@ + joined_transforms(spec_path_transforms(t, id)) + "\"><rect x=\""@
        + dec_str_signed(b.0 - 20) + "\" y=\""@ + dec_str_signed(b.1 - 20) + "\" width=\""@
        + dec_str(b.2 - b.0 + 40) + "\" height=\""@ + dec_str(b.3 - b.1 + 40)
        + "\" fill=\"#0000ff\" fill-opacity=\"0.5\" stroke=\"#0000ff\" stroke-width=\"20\"/></g>"@
}

/// The outlines of the selected items, in selection order, all drawn after
/// the content so that nothing occludes them.
pub open spec fn outlines_svg(t: BaseTemplate, sel: Seq<InternalId>) -> Seq<char>
    decreases sel.len(),
{
    if sel.len() == 0 {
        Seq::empty()
    } else {
        outline_svg(t, sel[0]) + outlines_svg(t, sel.skip(1))
    }
}

/// The opening of the document: an svg element of the stage size with a
/// matching view box.
pub open spec fn svg_header(w: int, h: int) -> Seq<char> {
    "<svg xmlns=\"http://www.w3.org/2000/svg\" width=\""@ + dec_str(w) + "\" height=\""@ + dec_str(
        h,
    ) + "\" viewBox=\"0 0 "@ + dec_str(w) + " "@ + dec_str(h) + "\">"@
}

/// Everything of the rendered document but the closing tag: the header, the
/// recursive lowering of the root, and the selection outlines.
pub open spec fn doc_prefix(base: Base, sel: Seq<InternalId>) -> Seq<char> {
    svg_header(base.tpl().size.0 as int, base.tpl().size.1 as int) + (match base.item {
        BaseItem::Prop(p) => prop_node_svg(p.template, p.template.root, p.template.s().len() as nat),
        BaseItem::Blueprint(b) => bp_node_svg(b.template, b.template.root, b.template.s().len() as nat),
    }) + outlines_svg(base.tpl(), sel)
}

/// The full rendered document.
pub open spec fn render_spec(base: Base, sel: Seq<InternalId>) -> Seq<char> {
    doc_prefix(base, sel) + "</svg>"@
}

/// Appends the selection outline of one item.
#[verifier::rlimit(100)]
fn outline_into(t: &BaseTemplate, id: InternalId, s: &mut String)
    requires
        t.wf_core(),
        t.has(id),
    ensures
        final(s)@ == old(s)@ + outline_svg(*t, id),
{
    let ghost sg = t.s();
    let ghost root_g = t.root;
    let ghost n = t.s().len() as nat;
    proof {
        t.lemma_wf_facts();
        let f = choose|f: nat| crate::scene::reaches_root(sg, root_g, id, f);
        crate::reach::lemma_reach_bound(sg, root_g, id, f);
        crate::reach::lemma_chain(sg, root_g, id, n);
    }
    let ghost ch = crate::reach::chain_of(sg, root_g, id, n);

    // walk the parent links upward, collecting the chain
    let mut up: Vec<InternalId> = Vec::new();
    let mut cur = id;
    up.push(cur);
    while cur != t.root
        invariant
            t.wf_core(),
            sg == t.s(),
            root_g == t.root,
            n == sg.len() as nat,
            crate::scene::reaches_root(sg, root_g, id, n),
            ch == crate::reach::chain_of(sg, root_g, id, n),
            1 <= up@.len() <= ch.len(),
            up@ =~= ch.subrange(0, up@.len() as int),
            cur == ch[up@.len() - 1],
            cur != root_g ==> up@.len() < ch.len(),
        decreases ch.len() - up@.len(),
    {
        proof {
            crate::reach::lemma_chain(sg, root_g, id, n);
            let k = up@.len() - 1;
            assert(ch[k] != root_g);
            assert(k != ch.len() - 1);
            assert(tpl_node(sg, ch[k]).spec_parent() == Some(ch[k + 1]));
            assert(tpl_has(sg, ch[k]));
        }
        let node = t.get(cur).unwrap();
        let p = node.get_parent().unwrap();
        up.push(p);
        cur = p;
        proof {
            assert(up@ =~= ch.subrange(0, up@.len() as int));
            if cur != root_g {
                assert(ch[up@.len() - 1] != root_g);
                assert(up@.len() - 1 != ch.len() - 1);
            }
        }
    }
    proof {
        assert(up@.len() == ch.len()) by {
            if up@.len() < ch.len() {
                let k = up@.len() - 1;
                assert(ch[k] == root_g && ch[ch.len() - 1] == root_g);
                assert(ch.no_duplicates());
            }
        }
        assert(up@ =~= ch);
    }

    let ghost path = crate::stage::spec_path(*t, id);
    let ghost pts = spec_path_transforms(*t, id);
    proof {
        assert(path.len() == ch.len());
        assert(forall|k: int| 0 <= k < path.len() ==> #[trigger] path[k] == ch[path.len() - 1 - k]);
        assert(pts.len() == path.len());
        assert(forall|k: int|
            0 <= k < path.len() ==> tpl_has(sg, #[trigger] path[k]));
        assert(forall|k: int|
            0 <= k < path.len() ==> #[trigger] pts[k] == tpl_node(sg, path[k]).spec_transform());
    }
    let len = up.len();

    s.append("<g transform=\"");
    let first = t.get(up[len - 1]).unwrap();
    let tr0 = first.get_relative_transform();
    transform_attr_into(&tr0, s);
    let ghost mid = s@;
    let mut j: usize = 1;
    while j < len
        invariant
            t.wf_core(),
            sg == t.s(),
            len == up@.len() == ch.len(),
            up@ =~= ch,
            path == crate::stage::spec_path(*t, id),
            pts == spec_path_transforms(*t, id),
            path.len() == len,
            pts.len() == len,
            forall|k: int| 0 <= k < len ==> #[trigger] path[k] == ch[len - 1 - k],
            forall|k: int| 0 <= k < len ==> tpl_has(sg, #[trigger] path[k]),
            forall|k: int|
                0 <= k < len ==> #[trigger] pts[k] == tpl_node(sg, path[k]).spec_transform(),
            1 <= j <= len,
            s@ + rest_transforms(pts.skip(j as int)) == mid + rest_transforms(pts.skip(1)),
        decreases len - j,
    {
        let nid = up[len - 1 - j];
        proof {
            assert(path[j as int] == ch[len - 1 - j]);
            assert(tpl_has(sg, path[j as int]));
            assert(pts.skip(j as int)[0] == pts[j as int]);
            assert(pts.skip(j as int).skip(1) =~= pts.skip(j as int + 1));
        }
        s.append(" ");
        let node = t.get(nid).unwrap();
        let tr = node.get_relative_transform();
        transform_attr_into(&tr, s);
        proof {
            assert(s@ + rest_transforms(pts.skip(j as int + 1)) =~= mid + rest_transforms(
                pts.skip(1),
            ));
        }
        j = j + 1;
    }
    proof {
        assert(rest_transforms(pts.skip(len as int)) =~= Seq::<char>::empty());
        assert(pts[0] == tpl_node(sg, path[0]).spec_transform());
        assert(s@ =~= old(s)@ + "<g transform=\""@ + joined_transforms(pts));
    }

    let node = t.get(id).unwrap();
    let (x0, y0, x1, y1) = node.get_local_bounds();
    s.append("\"><rect x=\"");
    fmt_i64_into(x0 - 20, s);
    s.append("\" y=\"");
    fmt_i64_into(y0 - 20, s);
    s.append("\" width=\"");
    fmt_u64_into((x1 - x0 + 40) as u64, s);
    s.append("\" height=\"");
    fmt_u64_into((y1 - y0 + 40) as u64, s);
    s.append("\" fill=\"#0000ff\" fill-opacity=\"0.5\" stroke=\"#0000ff\" stroke-width=\"20\"/></g>");
    proof {
        assert(final(s)@ =~= old(s)@ + outline_svg(*t, id));
    }
}

/// Appends the outlines of the selected items, in selection order.
#[verifier::rlimit(100)]
#[verifier::spinoff_prover]
fn outlines_into(t: &BaseTemplate, sel: &Vec<InternalId>, s: &mut String)
    requires
        t.wf_core(),
        forall|k: int| 0 <= k < sel@.len() ==> t.has(#[trigger] sel@[k]),
    ensures
        final(s)@ == old(s)@ + outlines_svg(*t, sel@),
{
    let ghost selg = sel@;
    let mut j: usize = 0;
    proof {
        assert(selg.skip(0) =~= selg);
    }
    while j < sel.len()
        invariant
            t.wf_core(),
            selg == sel@,
            forall|k: int| 0 <= k < selg.len() ==> t.has(#[trigger] selg[k]),
            j <= selg.len(),
            s@ + outlines_svg(*t, selg.skip(j as int)) == old(s)@ + outlines_svg(*t, selg),
        decreases selg.len() - j,
    {
        let id = sel[j];
        proof {
            assert(selg.skip(j as int)[0] == id);
            assert(selg.skip(j as int).skip(1) =~= selg.skip(j as int + 1));
            assert(t.has(id));
        }
        outline_into(t, id, s);
        proof {
            assert(s@ + outlines_svg(*t, selg.skip(j as int + 1)) =~= old(s)@ + outlines_svg(
                *t,
                selg,
            ));
        }
        j = j + 1;
    }
    proof {
        assert(outlines_svg(*t, selg.skip(selg.len() as int)) =~= Seq::<char>::empty());
        assert(final(s)@ =~= old(s)@ + outlines_svg(*t, selg));
    }
}

impl Stage {
    /// The rendered document of the stage: the header with the stage size,
    /// the recursive lowering of the root item, one outline per selected
    /// item in selection order, and the closing tag. Rendering reads the
    /// stage and always succeeds; the same stage always yields the same
    /// text.
    #[verifier::rlimit(100)]
    #[verifier::spinoff_prover]
    pub fn render_string(&self) -> (r: Result<String, PyramusError>)
        requires
            self.wf(),
        ensures
            r matches Ok(out) && out@ == render_spec(self.base, self.selection@),
    {
        let mut s = String::new();
        let (w, h) = self.base.get_size();
        s.append("<svg xmlns=\"http://www.w3.org/2000/svg\" width=\"");
        fmt_u64_into(w as u64, &mut s);
        s.append("\" height=\"");
        fmt_u64_into(h as u64, &mut s);
        s.append("\" viewBox=\"0 0 ");
        fmt_u64_into(w as u64, &mut s);
        s.append(" ");
        fmt_u64_into(h as u64, &mut s);
        s.append("\">");
        proof {
            assert(s@ =~= svg_header(
                self.base.tpl().size.0 as int,
                self.base.tpl().size.1 as int,
            ));
        }
        match &self.base.item {
            BaseItem::Prop(p) => {
                proof {
                    p.template.lemma_wf_facts();
                }
                prop_node_svg_into(&p.template, p.template.root, Ghost(Seq::empty()), &mut s);
            },
            BaseItem::Blueprint(b) => {
                proof {
                    b.template.lemma_wf_facts();
                }
                bp_node_svg_into(&b.template, b.template.root, Ghost(Seq::empty()), &mut s);
            },
        }
        let tref = self.base.get_template();
        outlines_into(tref, &self.selection, &mut s);
        s.append("</svg>");
        proof {
            assert(s@ =~= render_spec(self.base, self.selection@));
        }
        Ok(s)
    }
}

/// Concatenation of text is associative.
proof fn lemma_concat_assoc(a: Seq<char>, b: Seq<char>, c: Seq<char>)
    ensures
        (a + b) + c == a + (b + c),
{
    assert((a + b) + c =~= a + (b + c));
}

/// Extending the selection by one item appends exactly one outline group to
/// the rendered document, just before the closing tag; everything else of
/// the text is unchanged. Rendering itself is a function of the stage, so
/// the same stage always renders to the same text.
#[verifier::rlimit(100)]
#[verifier::spinoff_prover]
pub proof fn lemma_select_appends_one_outline(base: Base, sel: Seq<InternalId>, id: InternalId)
    ensures
        render_spec(base, sel) == doc_prefix(base, sel) + "</svg>"@,
        render_spec(base, sel.push(id)) == doc_prefix(base, sel) + outline_svg(base.tpl(), id)
            + "</svg>"@,
{
    lemma_outlines_snoc(base.tpl(), sel, id);
    let hc = svg_header(base.tpl().size.0 as int, base.tpl().size.1 as int) + (match base.item {
        BaseItem::Prop(p) => prop_node_svg(p.template, p.template.root, p.template.s().len() as nat),
        BaseItem::Blueprint(b) => bp_node_svg(b.template, b.template.root, b.template.s().len() as nat),
    });
    let os = outlines_svg(base.tpl(), sel);
    let o = outline_svg(base.tpl(), id);
    assert(doc_prefix(base, sel.push(id)) == hc + (os + o));
    lemma_concat_assoc(hc, os, o);
    assert(doc_prefix(base, sel.push(id)) == doc_prefix(base, sel) + o);
}

/// The outlines of one more selected item come after the others'.
#[verifier::rlimit(100)]
#[verifier::spinoff_prover]
pub proof fn lemma_outlines_snoc(t: BaseTemplate, sel: Seq<InternalId>, id: InternalId)
    ensures
        outlines_svg(t, sel.push(id)) == outlines_svg(t, sel) + outline_svg(t, id),
    decreases sel.len(),
{
    if sel.len() == 0 {
        assert(sel.push(id)[0] == id);
        assert(sel.push(id).skip(1) =~= Seq::<InternalId>::empty());
        let o = outline_svg(t, id);
        assert(outlines_svg(t, sel.push(id)) == o + outlines_svg(t, Seq::<InternalId>::empty()));
        assert(o + Seq::<char>::empty() =~= o);
        assert(Seq::<char>::empty() + o =~= o);
    } else {
        assert(sel.push(id)[0] == sel[0]);
        assert(sel.push(id).skip(1) =~= sel.skip(1).push(id));
        lemma_outlines_snoc(t, sel.skip(1), id);
        let a = outline_svg(t, sel[0]);
        let b = outlines_svg(t, sel.skip(1));
        let c = outline_svg(t, id);
        assert(outlines_svg(t, sel.push(id)) == a + (b + c));
        lemma_concat_assoc(a, b, c);
    }
}

} // verus!
