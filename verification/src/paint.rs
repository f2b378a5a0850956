//! What a frame looks like: the list of drawing operations for its toolbar,
//! panel headers and buttons. Executing them is left to the caller.
use crate::frame::{ButtonId, FrameState, FrameView};
use crate::layout::{fits, fits_i32, max_int, PanelArea, Preset, Rect};
use crate::win_util::Theme;
use vstd::prelude::*;

verus! {

broadcast use vstd::laws_eq::group_laws_eq;

/// Icon-font glyph of the maximize button.
pub const GLYPH_MAXIMIZE: u16 = 0xE922;

/// Icon-font glyph of the restore button.
pub const GLYPH_RESTORE: u16 = 0xE923;

/// Icon-font glyph of the close button.
pub const GLYPH_CLOSE: u16 = 0xE8BB;

/// White, for the close glyph on its red hover background.
pub const WHITE: u32 = 0x00FF_FFFF;

/// The two fonts of a frame.
#[derive(Clone, Copy, PartialEq, Eq, Debug, Structural)]
pub enum FontKind {
    /// The UI text font.
    Text,
    /// The icon font for caption and panel buttons.
    Icon,
}

/// A text to draw.
#[derive(Clone, Copy, PartialEq, Eq, Debug, Structural)]
pub enum Caption {
    /// The title of the docked window with this handle.
    WindowTitle(isize),
    /// The placeholder of an empty panel.
    EmptyPanel,
    /// The label of a preset button.
    PresetLabel(Preset),
}

/// How a text is placed in its rectangle (always one vertically centred line).
#[derive(Clone, Copy, PartialEq, Eq, Debug, Structural)]
pub enum TextStyle {
    /// Left-aligned, with an ellipsis when too long.
    LeftEllipsis,
    Left,
    Centered,
}

/// One drawing operation.
#[derive(Clone, Copy, PartialEq, Eq, Debug, Structural)]
pub enum PaintOp {
    Fill { rect: Rect, color: u32 },
    Text { rect: Rect, caption: Caption, color: u32, style: TextStyle },
    /// A centred icon-font glyph.
    Glyph { rect: Rect, glyph: u16, color: u32 },
    UseFont(FontKind),
}

/// Sizes (physical pixels) used when painting a frame.
#[derive(Clone, Copy, PartialEq, Eq, Debug, Structural)]
pub struct PaintMetrics {
    /// Toolbar height.
    pub toolbar_h: i32,
    /// Width of the hairlines (at least 1).
    pub hair: i32,
    /// Horizontal padding of a panel title.
    pub title_pad: i32,
    /// Width kept free for the panel button right of a panel title.
    pub title_button_w: i32,
    /// Height of the underline of the selected preset.
    pub underline: i32,
}

/// Background, toolbar strip and the toolbar's bottom border.
pub open spec fn base_ops(client: Rect, t: Theme, m: PaintMetrics) -> Seq<PaintOp> {
    seq![
        PaintOp::Fill { rect: client, color: t.bg },
        PaintOp::Fill { rect: Rect { x: 0, y: 0, w: client.w, h: m.toolbar_h }, color: t.toolbar },
        PaintOp::Fill {
            rect: Rect { x: 0, y: (m.toolbar_h - m.hair) as i32, w: client.w, h: m.hair },
            color: t.border,
        },
        PaintOp::UseFont(FontKind::Text),
    ]
}

/// The title area of a panel header: right of the padding, left of the panel button.
pub open spec fn title_rect(h: Rect, m: PaintMetrics) -> Rect {
    Rect {
        x: (h.x + m.title_pad) as i32,
        y: h.y,
        w: max_int(h.w - m.title_button_w - m.title_pad * 2, 0) as i32,
        h: h.h,
    }
}

/// A panel: header strip, its bottom border, the title (window title or the empty
/// placeholder), then a right border unless the panel touches the client's right
/// edge and a bottom border unless it touches the bottom edge.
pub open spec fn panel_ops(p: PanelArea, occupant: Option<isize>, client: Rect, t: Theme, m: PaintMetrics) -> Seq<PaintOp> {
    let h = p.header;
    let b = p.body;
    let title = match occupant {
        Some(id) => PaintOp::Text {
            rect: title_rect(h, m),
            caption: Caption::WindowTitle(id),
            color: t.text,
            style: TextStyle::LeftEllipsis,
        },
        None => PaintOp::Text { rect: title_rect(h, m), caption: Caption::EmptyPanel, color: t.text_dim, style: TextStyle::Left },
    };
    let head = seq![
        PaintOp::Fill { rect: h, color: t.header },
        PaintOp::Fill { rect: Rect { x: h.x, y: (h.y + h.h - m.hair) as i32, w: h.w, h: m.hair }, color: t.border },
        title,
    ];
    let right = if b.x + b.w < client.w {
        seq![
            PaintOp::Fill {
                rect: Rect { x: (h.x + h.w - m.hair) as i32, y: h.y, w: m.hair, h: (h.h + b.h) as i32 },
                color: t.border,
            },
        ]
    } else {
        Seq::empty()
    };
    let bottom = if b.y + b.h < client.h {
        seq![
            PaintOp::Fill { rect: Rect { x: b.x, y: (b.y + b.h - m.hair) as i32, w: b.w, h: m.hair }, color: t.border },
        ]
    } else {
        Seq::empty()
    };
    head + right + bottom
}

/// `fill` with `color` first when hovered.
pub open spec fn hover_fill(hovered: bool, r: Rect, color: u32) -> Seq<PaintOp> {
    if hovered {
        seq![PaintOp::Fill { rect: r, color }]
    } else {
        Seq::empty()
    }
}

/// A button: hover background, font, and its label or glyph. A preset button is
/// underlined in the accent colour when it is the frame's preset; a panel button of
/// an empty panel is not drawn.
pub open spec fn button_ops(b: ButtonId, r: Rect, f: FrameView, t: Theme, m: PaintMetrics) -> Seq<PaintOp> {
    let hovered = f.hover == Some(b);
    match b {
        ButtonId::Preset(p) => hover_fill(hovered, r, t.hover) + seq![
            PaintOp::UseFont(FontKind::Text),
            PaintOp::Text { rect: r, caption: Caption::PresetLabel(p), color: t.text, style: TextStyle::Centered },
        ] + if f.preset == p {
            seq![
                PaintOp::Fill {
                    rect: Rect { x: r.x, y: (r.y + r.h - m.underline - m.hair) as i32, w: r.w, h: m.underline },
                    color: t.accent,
                },
            ]
        } else {
            Seq::empty()
        },
        ButtonId::ToolClose => hover_fill(hovered, r, t.denied) + seq![
            PaintOp::UseFont(FontKind::Icon),
            PaintOp::Glyph { rect: r, glyph: GLYPH_CLOSE, color: if hovered { WHITE } else { t.text } },
        ],
        ButtonId::ToolMax => hover_fill(hovered, r, t.hover) + seq![
            PaintOp::UseFont(FontKind::Icon),
            PaintOp::Glyph { rect: r, glyph: if f.maximized { GLYPH_RESTORE } else { GLYPH_MAXIMIZE }, color: t.text },
        ],
        ButtonId::PanelRestore => hover_fill(hovered, r, t.hover) + seq![
            PaintOp::UseFont(FontKind::Icon),
            PaintOp::Glyph { rect: r, glyph: GLYPH_RESTORE, color: t.accent },
        ],
        ButtonId::PanelMax(i) => if f.dock.occupant(i as int) is None {
            Seq::empty()
        } else {
            hover_fill(hovered, r, t.hover) + seq![
                PaintOp::UseFont(FontKind::Icon),
                PaintOp::Glyph {
                    rect: r,
                    glyph: if f.dock.maximized == Some(i) { GLYPH_RESTORE } else { GLYPH_MAXIMIZE },
                    color: t.text_dim,
                },
            ]
        },
    }
}

/// The operations of panels `0..k`.
pub open spec fn panels_ops(panels: Seq<PanelArea>, k: int, f: FrameView, client: Rect, t: Theme, m: PaintMetrics) -> Seq<PaintOp>
    decreases k,
{
    if k <= 0 {
        Seq::empty()
    } else {
        panels_ops(panels, k - 1, f, client, t, m) + panel_ops(panels[k - 1], f.dock.occupant(k - 1), client, t, m)
    }
}

/// The operations of buttons `0..k`.
pub open spec fn buttons_ops(buttons: Seq<(ButtonId, Rect)>, k: int, f: FrameView, t: Theme, m: PaintMetrics) -> Seq<PaintOp>
    decreases k,
{
    if k <= 0 {
        Seq::empty()
    } else {
        buttons_ops(buttons, k - 1, f, t, m) + button_ops(buttons[k - 1].0, buttons[k - 1].1, f, t, m)
    }
}

/// The whole frame: background and toolbar, the panels in order, the buttons in order.
pub open spec fn frame_ops(client: Rect, f: FrameView, t: Theme, m: PaintMetrics, panels: Seq<PanelArea>, buttons: Seq<(ButtonId, Rect)>) -> Seq<PaintOp> {
    base_ops(client, t, m) + panels_ops(panels, panels.len() as int, f, client, t, m) + buttons_ops(
        buttons,
        buttons.len() as int,
        f,
        t,
        m,
    )
}

/// The panel's drawing computes within the `i32` range.
pub open spec fn panel_paint_defined(p: PanelArea, m: PaintMetrics) -> bool {
    let h = p.header;
    let b = p.body;
    &&& fits_i32(h.y + h.h) && fits_i32(h.y + h.h - m.hair)
    &&& fits_i32(h.x + m.title_pad)
    &&& fits_i32(h.w - m.title_button_w) && fits_i32(m.title_pad * 2) && fits_i32(h.w - m.title_button_w - m.title_pad * 2)
    &&& fits_i32(b.x + b.w)
    &&& fits_i32(h.x + h.w) && fits_i32(h.x + h.w - m.hair) && fits_i32(h.h + b.h)
    &&& fits_i32(b.y + b.h) && fits_i32(b.y + b.h - m.hair)
}

/// The button's drawing computes within the `i32` range.
pub open spec fn button_paint_defined(r: Rect, m: PaintMetrics) -> bool {
    fits_i32(r.y + r.h) && fits_i32(r.y + r.h - m.underline) && fits_i32(r.y + r.h - m.underline - m.hair)
}

fn hover_fill_into(ops: &mut Vec<PaintOp>, hovered: bool, r: Rect, color: u32)
    ensures
        final(ops)@ == old(ops)@ + hover_fill(hovered, r, color),
{
    if hovered {
        ops.push(PaintOp::Fill { rect: r, color });
    }
    assert(final(ops)@ =~= old(ops)@ + hover_fill(hovered, r, color));
}

fn panel_ops_into(ops: &mut Vec<PaintOp>, p: PanelArea, occupant: Option<isize>, client: Rect, t: &Theme, m: PaintMetrics)
    requires
        panel_paint_defined(p, m),
    ensures
        final(ops)@ == old(ops)@ + panel_ops(p, occupant, client, *t, m),
{
    let h = p.header;
    let b = p.body;
    ops.push(PaintOp::Fill { rect: h, color: t.header });
    ops.push(PaintOp::Fill { rect: Rect { x: h.x, y: h.y + h.h - m.hair, w: h.w, h: m.hair }, color: t.border });
    let tw = h.w - m.title_button_w - m.title_pad * 2;
    let title = Rect { x: h.x + m.title_pad, y: h.y, w: if tw > 0 { tw } else { 0 }, h: h.h };
    match occupant {
        Some(id) => ops.push(
            PaintOp::Text { rect: title, caption: Caption::WindowTitle(id), color: t.text, style: TextStyle::LeftEllipsis },
        ),
        None => ops.push(PaintOp::Text { rect: title, caption: Caption::EmptyPanel, color: t.text_dim, style: TextStyle::Left }),
    }
    if b.x + b.w < client.w {
        ops.push(
            PaintOp::Fill { rect: Rect { x: h.x + h.w - m.hair, y: h.y, w: m.hair, h: h.h + b.h }, color: t.border },
        );
    }
    if b.y + b.h < client.h {
        ops.push(PaintOp::Fill { rect: Rect { x: b.x, y: b.y + b.h - m.hair, w: b.w, h: m.hair }, color: t.border });
    }
    assert(final(ops)@ =~= old(ops)@ + panel_ops(p, occupant, client, *t, m));
}

fn button_ops_into(ops: &mut Vec<PaintOp>, b: ButtonId, r: Rect, f: &FrameState, t: &Theme, m: PaintMetrics)
    requires
        button_paint_defined(r, m),
    ensures
        final(ops)@ == old(ops)@ + button_ops(b, r, f@, *t, m),
{
    let hovered = match f.hover {
        Some(x) => x == b,
        None => false,
    };
    assert(hovered == (f@.hover == Some(b)));
    match b {
        ButtonId::Preset(p) => {
            hover_fill_into(ops, hovered, r, t.hover);
            ops.push(PaintOp::UseFont(FontKind::Text));
            ops.push(PaintOp::Text { rect: r, caption: Caption::PresetLabel(p), color: t.text, style: TextStyle::Centered });
            if f.preset == p {
                ops.push(
                    PaintOp::Fill {
                        rect: Rect { x: r.x, y: r.y + r.h - m.underline - m.hair, w: r.w, h: m.underline },
                        color: t.accent,
                    },
                );
            }
        },
        ButtonId::ToolClose => {
            hover_fill_into(ops, hovered, r, t.denied);
            ops.push(PaintOp::UseFont(FontKind::Icon));
            let color = if hovered {
                WHITE
            } else {
                t.text
            };
            ops.push(PaintOp::Glyph { rect: r, glyph: GLYPH_CLOSE, color });
        },
        ButtonId::ToolMax => {
            hover_fill_into(ops, hovered, r, t.hover);
            ops.push(PaintOp::UseFont(FontKind::Icon));
            let glyph = if f.maximized {
                GLYPH_RESTORE
            } else {
                GLYPH_MAXIMIZE
            };
            ops.push(PaintOp::Glyph { rect: r, glyph, color: t.text });
        },
        ButtonId::PanelRestore => {
            hover_fill_into(ops, hovered, r, t.hover);
            ops.push(PaintOp::UseFont(FontKind::Icon));
            ops.push(PaintOp::Glyph { rect: r, glyph: GLYPH_RESTORE, color: t.accent });
        },
        ButtonId::PanelMax(i) => {
            if f.dock.occupant(i).is_some() {
                hover_fill_into(ops, hovered, r, t.hover);
                ops.push(PaintOp::UseFont(FontKind::Icon));
                let glyph = if f.dock.maximized_panel() == Some(i) {
                    GLYPH_RESTORE
                } else {
                    GLYPH_MAXIMIZE
                };
                ops.push(PaintOp::Glyph { rect: r, glyph, color: t.text_dim });
            }
        },
    }
    assert(final(ops)@ =~= old(ops)@ + button_ops(b, r, f@, *t, m));
}

/// The drawing operations of frame `f`: `client` is its client rectangle,
/// `panels` its panels and `buttons` its buttons (client coordinates).
pub fn frame_paint_ops(
    client: Rect,
    f: &FrameState,
    t: &Theme,
    m: PaintMetrics,
    panels: &Vec<PanelArea>,
    buttons: &Vec<(ButtonId, Rect)>,
) -> (ops: Vec<PaintOp>)
    requires
        fits_i32(m.toolbar_h - m.hair),
        forall|i: int| 0 <= i < panels@.len() ==> panel_paint_defined(#[trigger] panels@[i], m),
        forall|i: int| 0 <= i < buttons@.len() ==> button_paint_defined((#[trigger] buttons@[i]).1, m),
    ensures
        ops@ == frame_ops(client, f@, *t, m, panels@, buttons@),
{
    let mut ops: Vec<PaintOp> = Vec::new();
    ops.push(PaintOp::Fill { rect: client, color: t.bg });
    ops.push(PaintOp::Fill { rect: Rect { x: 0, y: 0, w: client.w, h: m.toolbar_h }, color: t.toolbar });
    ops.push(PaintOp::Fill { rect: Rect { x: 0, y: m.toolbar_h - m.hair, w: client.w, h: m.hair }, color: t.border });
    ops.push(PaintOp::UseFont(FontKind::Text));
    assert(ops@ =~= base_ops(client, *t, m));
    let mut i: usize = 0;
    while i < panels.len()
        invariant
            i <= panels@.len(),
            forall|k: int| 0 <= k < panels@.len() ==> panel_paint_defined(#[trigger] panels@[k], m),
            ops@ == base_ops(client, *t, m) + panels_ops(panels@, i as int, f@, client, *t, m),
        decreases panels@.len() - i,
    {
        let occupant = f.dock.occupant(i);
        panel_ops_into(&mut ops, panels[i], occupant, client, t, m);
        assert(ops@ =~= base_ops(client, *t, m) + panels_ops(panels@, i as int + 1, f@, client, *t, m));
        i = i + 1;
    }
    let ghost head = ops@;
    let mut j: usize = 0;
    while j < buttons.len()
        invariant
            j <= buttons@.len(),
            forall|k: int| 0 <= k < buttons@.len() ==> button_paint_defined((#[trigger] buttons@[k]).1, m),
            ops@ == head + buttons_ops(buttons@, j as int, f@, *t, m),
        decreases buttons@.len() - j,
    {
        let (b, r) = buttons[j];
        button_ops_into(&mut ops, b, r, f, t, m);
        assert(ops@ =~= head + buttons_ops(buttons@, j as int + 1, f@, *t, m));
        j = j + 1;
    }
    ops
}

/// Whether [`frame_paint_ops`] computes within the `i32` range (its precondition).
pub fn paint_computable(m: PaintMetrics, panels: &Vec<PanelArea>, buttons: &Vec<(ButtonId, Rect)>) -> (b: bool)
    ensures
        b == (fits_i32(m.toolbar_h - m.hair) && (forall|i: int|
            0 <= i < panels@.len() ==> panel_paint_defined(#[trigger] panels@[i], m)) && (forall|i: int|
            0 <= i < buttons@.len() ==> button_paint_defined((#[trigger] buttons@[i]).1, m))),
{
    if !fits(m.toolbar_h as i64 - m.hair as i64) {
        return false;
    }
    let hair = m.hair as i64;
    let mut i: usize = 0;
    while i < panels.len()
        invariant
            i <= panels@.len(),
            hair == m.hair,
            forall|k: int| 0 <= k < i ==> panel_paint_defined(#[trigger] panels@[k], m),
        decreases panels@.len() - i,
    {
        let h = panels[i].header;
        let b = panels[i].body;
        let (hx, hy, hw, hh) = (h.x as i64, h.y as i64, h.w as i64, h.h as i64);
        let (bx, by, bw, bh) = (b.x as i64, b.y as i64, b.w as i64, b.h as i64);
        let pad = m.title_pad as i64;
        let tbw = m.title_button_w as i64;
        let ok = fits(hy + hh) && fits(hy + hh - hair) && fits(hx + pad) && fits(hw - tbw) && fits(pad * 2) && fits(
            hw - tbw - pad * 2,
        ) && fits(bx + bw) && fits(hx + hw) && fits(hx + hw - hair) && fits(hh + bh) && fits(by + bh) && fits(
            by + bh - hair,
        );
        if !ok {
            assert(!panel_paint_defined(panels@[i as int], m));
            return false;
        }
        i = i + 1;
    }
    let ul = m.underline as i64;
    let mut j: usize = 0;
    while j < buttons.len()
        invariant
            j <= buttons@.len(),
            hair == m.hair,
            ul == m.underline,
            fits_i32(m.toolbar_h - m.hair),
            forall|k: int| 0 <= k < panels@.len() ==> panel_paint_defined(#[trigger] panels@[k], m),
            forall|k: int| 0 <= k < j ==> button_paint_defined((#[trigger] buttons@[k]).1, m),
        decreases buttons@.len() - j,
    {
        let r = buttons[j].1;
        let bottom = r.y as i64 + r.h as i64;
        if !fits(bottom) || !fits(bottom - ul) || !fits(bottom - ul - hair) {
            return false;
        }
        j = j + 1;
    }
    true
}

/// The glyph a button shows, if any: none for a preset button or the button of an
/// empty panel; "restore" for the maximized panel, for a maximized frame's tool
/// button and for the panel-restore button; "maximize" otherwise; the close glyph
/// for the close button.
pub open spec fn button_glyph(b: ButtonId, f: FrameView) -> Option<u16> {
    match b {
        ButtonId::Preset(_) => None,
        ButtonId::ToolClose => Some(GLYPH_CLOSE),
        ButtonId::ToolMax => Some(if f.maximized { GLYPH_RESTORE } else { GLYPH_MAXIMIZE }),
        ButtonId::PanelRestore => Some(GLYPH_RESTORE),
        ButtonId::PanelMax(i) => if f.dock.occupant(i as int) is None {
            None
        } else {
            Some(if f.dock.maximized == Some(i) { GLYPH_RESTORE } else { GLYPH_MAXIMIZE })
        },
    }
}

/// The title shown in a panel header: the occupant's window title, or the
/// placeholder of an empty panel.
pub open spec fn panel_caption(occupant: Option<isize>) -> Caption {
    match occupant {
        Some(id) => Caption::WindowTitle(id),
        None => Caption::EmptyPanel,
    }
}

/// `op` draws glyph `g` in `r`.
pub open spec fn draws_glyph(op: PaintOp, r: Rect, g: u16) -> bool {
    match op {
        PaintOp::Glyph { rect, glyph, .. } => rect == r && glyph == g,
        _ => false,
    }
}

/// `op` writes `caption` in `r`.
pub open spec fn writes(op: PaintOp, r: Rect, caption: Caption) -> bool {
    match op {
        PaintOp::Text { rect, caption: c, .. } => rect == r && c == caption,
        _ => false,
    }
}

/// Where the operations of panel `k` start in the frame's operation list.
pub open spec fn panel_start(panels: Seq<PanelArea>, k: int, f: FrameView, client: Rect, t: Theme, m: PaintMetrics) -> int {
    (base_ops(client, t, m).len() + panels_ops(panels, k, f, client, t, m).len()) as int
}

/// Where the operations of button `j` start in the frame's operation list.
pub open spec fn button_start(
    panels: Seq<PanelArea>,
    buttons: Seq<(ButtonId, Rect)>,
    j: int,
    f: FrameView,
    client: Rect,
    t: Theme,
    m: PaintMetrics,
) -> int {
    panel_start(panels, panels.len() as int, f, client, t, m) + buttons_ops(buttons, j, f, t, m).len()
}

proof fn lemma_panels_ops_prefix(panels: Seq<PanelArea>, k: int, n: int, f: FrameView, client: Rect, t: Theme, m: PaintMetrics)
    requires
        0 <= k <= n,
    ensures
        panels_ops(panels, k, f, client, t, m).len() <= panels_ops(panels, n, f, client, t, m).len(),
        panels_ops(panels, n, f, client, t, m).subrange(0, panels_ops(panels, k, f, client, t, m).len() as int)
            == panels_ops(panels, k, f, client, t, m),
    decreases n - k,
{
    if k < n {
        lemma_panels_ops_prefix(panels, k, n - 1, f, client, t, m);
        let a = panels_ops(panels, n - 1, f, client, t, m);
        let all = panels_ops(panels, n, f, client, t, m);
        let lk = panels_ops(panels, k, f, client, t, m).len() as int;
        assert(all.subrange(0, lk) =~= a.subrange(0, lk));
    } else {
        let all = panels_ops(panels, n, f, client, t, m);
        assert(all.subrange(0, all.len() as int) =~= all);
    }
}

proof fn lemma_buttons_ops_prefix(buttons: Seq<(ButtonId, Rect)>, k: int, n: int, f: FrameView, t: Theme, m: PaintMetrics)
    requires
        0 <= k <= n,
    ensures
        buttons_ops(buttons, k, f, t, m).len() <= buttons_ops(buttons, n, f, t, m).len(),
        buttons_ops(buttons, n, f, t, m).subrange(0, buttons_ops(buttons, k, f, t, m).len() as int) == buttons_ops(
            buttons,
            k,
            f,
            t,
            m,
        ),
    decreases n - k,
{
    if k < n {
        lemma_buttons_ops_prefix(buttons, k, n - 1, f, t, m);
        let a = buttons_ops(buttons, n - 1, f, t, m);
        let all = buttons_ops(buttons, n, f, t, m);
        let lk = buttons_ops(buttons, k, f, t, m).len() as int;
        assert(all.subrange(0, lk) =~= a.subrange(0, lk));
    } else {
        let all = buttons_ops(buttons, n, f, t, m);
        assert(all.subrange(0, all.len() as int) =~= all);
    }
}

/// `op` fills something in the theme's accent colour.
pub open spec fn accent_fill(op: PaintOp, t: Theme) -> bool {
    op matches PaintOp::Fill { color, .. } && color == t.accent
}

/// Some operation of `ops` fills in the accent colour.
pub open spec fn has_accent_fill(ops: Seq<PaintOp>, t: Theme) -> bool {
    exists|i: int| 0 <= i < ops.len() && accent_fill(#[trigger] ops[i], t)
}

/// `op` writes the label of preset `p`.
pub open spec fn writes_preset_label(op: PaintOp, p: Preset) -> bool {
    op matches PaintOp::Text { caption, .. } && caption == Caption::PresetLabel(p)
}

/// The toolbar shows which preset is active: a preset button ends with an accent
/// underline exactly when its preset is the frame's preset, and otherwise ends with
/// its label. When hovering does not use the accent colour, the active preset's
/// button is the only preset button with any accent fill.
pub proof fn law_active_preset_underlined(
    client: Rect,
    f: FrameView,
    t: Theme,
    m: PaintMetrics,
    panels: Seq<PanelArea>,
    buttons: Seq<(ButtonId, Rect)>,
)
    ensures
        forall|j: int|
            0 <= j < buttons.len() && buttons[j].0 is Preset ==> (accent_fill(
                frame_ops(client, f, t, m, panels, buttons)[#[trigger] button_start(panels, buttons, j + 1, f, client, t, m) - 1],
                t,
            ) <==> f.preset == buttons[j].0->Preset_0),
        forall|j: int|
            0 <= j < buttons.len() && buttons[j].0 is Preset && f.preset != buttons[j].0->Preset_0 ==> writes_preset_label(
                frame_ops(client, f, t, m, panels, buttons)[#[trigger] button_start(panels, buttons, j + 1, f, client, t, m) - 1],
                buttons[j].0->Preset_0,
            ),
        forall|p: Preset, r: Rect|
            #![trigger button_ops(ButtonId::Preset(p), r, f, t, m)]
            t.hover != t.accent ==> (has_accent_fill(button_ops(ButtonId::Preset(p), r, f, t, m), t) <==> f.preset == p),
{
    assert forall|j: int|
        0 <= j < buttons.len() && buttons[j].0 is Preset implies (accent_fill(
            frame_ops(client, f, t, m, panels, buttons)[#[trigger] button_start(panels, buttons, j + 1, f, client, t, m) - 1],
            t,
        ) <==> f.preset == buttons[j].0->Preset_0) && (f.preset != buttons[j].0->Preset_0 ==> writes_preset_label(
            frame_ops(client, f, t, m, panels, buttons)[button_start(panels, buttons, j + 1, f, client, t, m) - 1],
            buttons[j].0->Preset_0,
        )) by {
        lemma_button_segment(client, f, t, m, panels, buttons, j);
        let all = frame_ops(client, f, t, m, panels, buttons);
        let lo = button_start(panels, buttons, j, f, client, t, m);
        let hi = button_start(panels, buttons, j + 1, f, client, t, m);
        let seg = all.subrange(lo, hi);
        let ops = button_ops(buttons[j].0, buttons[j].1, f, t, m);
        assert(seg == ops);
        assert(ops.len() >= 2);
        assert(seg[seg.len() - 1] == all[hi - 1]);
    }
    assert forall|p: Preset, r: Rect|
        #![trigger button_ops(ButtonId::Preset(p), r, f, t, m)]
        t.hover != t.accent implies (has_accent_fill(button_ops(ButtonId::Preset(p), r, f, t, m), t) <==> f.preset == p) by {
        lemma_preset_accent(p, r, f, t, m);
    }
}

proof fn lemma_preset_accent(p: Preset, r: Rect, f: FrameView, t: Theme, m: PaintMetrics)
    requires
        t.hover != t.accent,
    ensures
        has_accent_fill(button_ops(ButtonId::Preset(p), r, f, t, m), t) <==> f.preset == p,
{
    let ops = button_ops(ButtonId::Preset(p), r, f, t, m);
    let h = hover_fill(f.hover == Some(ButtonId::Preset(p)), r, t.hover);
    let label = seq![
        PaintOp::UseFont(FontKind::Text),
        PaintOp::Text { rect: r, caption: Caption::PresetLabel(p), color: t.text, style: TextStyle::Centered },
    ];
    if f.preset == p {
        let u = seq![
            PaintOp::Fill {
                rect: Rect { x: r.x, y: (r.y + r.h - m.underline - m.hair) as i32, w: r.w, h: m.underline },
                color: t.accent,
            },
        ];
        assert(ops == h + label + u);
        let k = ops.len() - 1;
        assert(ops[k] == u[0]);
        assert(0 <= k < ops.len() && accent_fill(ops[k], t));
    } else {
        assert(ops == h + label + Seq::<PaintOp>::empty());
        assert forall|i: int| 0 <= i < ops.len() implies !accent_fill(#[trigger] ops[i], t) by {
            if i < h.len() {
                assert(ops[i] == h[i]);
            } else {
                assert(ops[i] == label[i - h.len()]);
            }
        }
    }
}

/// What the whole drawing of a frame shows. The operations of each panel and of
/// each button stand, in order, at their place in the frame's operation list.
/// Each panel writes its title (the occupant's window title, or the empty-panel
/// placeholder) in the header's title area. Each button draws exactly the glyph of
/// [`button_glyph`], as its last operation, or none at all: a panel's maximize
/// button appears only for an occupied panel and shows "restore" exactly for the
/// maximized panel, and the frame's maximize button follows the frame's state.
pub proof fn law_frame_drawing(
    client: Rect,
    f: FrameView,
    t: Theme,
    m: PaintMetrics,
    panels: Seq<PanelArea>,
    buttons: Seq<(ButtonId, Rect)>,
)
    ensures
        forall|k: int|
            0 <= k < panels.len() ==> frame_ops(client, f, t, m, panels, buttons).subrange(
                #[trigger] panel_start(panels, k, f, client, t, m),
                panel_start(panels, k + 1, f, client, t, m),
            ) == panel_ops(panels[k], f.dock.occupant(k), client, t, m),
        forall|k: int|
            0 <= k < panels.len() ==> writes(
                panel_ops(panels[k], f.dock.occupant(k), client, t, m)[2],
                #[trigger] title_rect(panels[k].header, m),
                panel_caption(f.dock.occupant(k)),
            ),
        forall|j: int|
            0 <= j < buttons.len() ==> frame_ops(client, f, t, m, panels, buttons).subrange(
                #[trigger] button_start(panels, buttons, j, f, client, t, m),
                button_start(panels, buttons, j + 1, f, client, t, m),
            ) == button_ops(buttons[j].0, buttons[j].1, f, t, m),
        forall|j: int|
            0 <= j < buttons.len() ==> match #[trigger] button_glyph(buttons[j].0, f) {
                Some(g) => draws_glyph(button_ops(buttons[j].0, buttons[j].1, f, t, m).last(), buttons[j].1, g),
                None => forall|i: int|
                    0 <= i < button_ops(buttons[j].0, buttons[j].1, f, t, m).len() ==> !(
                    #[trigger] button_ops(buttons[j].0, buttons[j].1, f, t, m)[i] is Glyph),
            },
        forall|k: int|
            0 <= k < panels.len() ==> writes(
                frame_ops(client, f, t, m, panels, buttons)[#[trigger] panel_start(panels, k, f, client, t, m) + 2],
                title_rect(panels[k].header, m),
                panel_caption(f.dock.occupant(k)),
            ),
        forall|j: int|
            0 <= j < buttons.len() && button_glyph(buttons[j].0, f) is Some ==> draws_glyph(
                frame_ops(client, f, t, m, panels, buttons)[#[trigger] button_start(panels, buttons, j + 1, f, client, t, m) - 1],
                buttons[j].1,
                button_glyph(buttons[j].0, f)->0,
            ),
        forall|j: int, i: int|
            0 <= j < buttons.len() && button_glyph(buttons[j].0, f) is None
                && #[trigger] button_start(panels, buttons, j, f, client, t, m) <= i < button_start(panels, buttons, j + 1, f, client, t, m)
                ==> !(#[trigger] frame_ops(client, f, t, m, panels, buttons)[i] is Glyph),
{
    assert forall|k: int| 0 <= k < panels.len() implies frame_ops(client, f, t, m, panels, buttons).subrange(
        #[trigger] panel_start(panels, k, f, client, t, m),
        panel_start(panels, k + 1, f, client, t, m),
    ) == panel_ops(panels[k], f.dock.occupant(k), client, t, m) by {
        lemma_panel_segment(client, f, t, m, panels, buttons, k);
    }
    assert forall|j: int| 0 <= j < buttons.len() implies frame_ops(client, f, t, m, panels, buttons).subrange(
        #[trigger] button_start(panels, buttons, j, f, client, t, m),
        button_start(panels, buttons, j + 1, f, client, t, m),
    ) == button_ops(buttons[j].0, buttons[j].1, f, t, m) by {
        lemma_button_segment(client, f, t, m, panels, buttons, j);
    }
    assert forall|j: int| 0 <= j < buttons.len() implies match #[trigger] button_glyph(buttons[j].0, f) {
        Some(g) => draws_glyph(button_ops(buttons[j].0, buttons[j].1, f, t, m).last(), buttons[j].1, g),
        None => forall|i: int|
            0 <= i < button_ops(buttons[j].0, buttons[j].1, f, t, m).len() ==> !(
            #[trigger] button_ops(buttons[j].0, buttons[j].1, f, t, m)[i] is Glyph),
    } by {
        lemma_button_glyph(buttons[j].0, buttons[j].1, f, t, m);
    }
    assert forall|k: int| 0 <= k < panels.len() implies writes(
        frame_ops(client, f, t, m, panels, buttons)[#[trigger] panel_start(panels, k, f, client, t, m) + 2],
        title_rect(panels[k].header, m),
        panel_caption(f.dock.occupant(k)),
    ) by {
        lemma_caption_at(client, f, t, m, panels, buttons, k);
    }
    assert forall|j: int| 0 <= j < buttons.len() && button_glyph(buttons[j].0, f) is Some implies draws_glyph(
        frame_ops(client, f, t, m, panels, buttons)[#[trigger] button_start(panels, buttons, j + 1, f, client, t, m) - 1],
        buttons[j].1,
        button_glyph(buttons[j].0, f)->0,
    ) by {
        lemma_glyph_at(client, f, t, m, panels, buttons, j);
    }
    assert forall|j: int, i: int|
        0 <= j < buttons.len() && button_glyph(buttons[j].0, f) is None
            && #[trigger] button_start(panels, buttons, j, f, client, t, m) <= i < button_start(panels, buttons, j + 1, f, client, t, m)
            implies !(#[trigger] frame_ops(client, f, t, m, panels, buttons)[i] is Glyph) by {
        lemma_no_glyph_at(client, f, t, m, panels, buttons, j, i);
    }
}

proof fn lemma_caption_at(
    client: Rect,
    f: FrameView,
    t: Theme,
    m: PaintMetrics,
    panels: Seq<PanelArea>,
    buttons: Seq<(ButtonId, Rect)>,
    k: int,
)
    requires
        0 <= k < panels.len(),
    ensures
        writes(
            frame_ops(client, f, t, m, panels, buttons)[panel_start(panels, k, f, client, t, m) + 2],
            title_rect(panels[k].header, m),
            panel_caption(f.dock.occupant(k)),
        ),
{
    lemma_panel_segment(client, f, t, m, panels, buttons, k);
    let all = frame_ops(client, f, t, m, panels, buttons);
    let lo = panel_start(panels, k, f, client, t, m);
    let seg = all.subrange(lo, panel_start(panels, k + 1, f, client, t, m));
    assert(seg[2] == all[lo + 2]);
}

proof fn lemma_glyph_at(
    client: Rect,
    f: FrameView,
    t: Theme,
    m: PaintMetrics,
    panels: Seq<PanelArea>,
    buttons: Seq<(ButtonId, Rect)>,
    j: int,
)
    requires
        0 <= j < buttons.len(),
        button_glyph(buttons[j].0, f) is Some,
    ensures
        draws_glyph(
            frame_ops(client, f, t, m, panels, buttons)[button_start(panels, buttons, j + 1, f, client, t, m) - 1],
            buttons[j].1,
            button_glyph(buttons[j].0, f)->0,
        ),
{
    lemma_button_segment(client, f, t, m, panels, buttons, j);
    lemma_button_glyph(buttons[j].0, buttons[j].1, f, t, m);
    let all = frame_ops(client, f, t, m, panels, buttons);
    let lo = button_start(panels, buttons, j, f, client, t, m);
    let hi = button_start(panels, buttons, j + 1, f, client, t, m);
    let seg = all.subrange(lo, hi);
    assert(seg[seg.len() - 1] == all[hi - 1]);
}

proof fn lemma_no_glyph_at(
    client: Rect,
    f: FrameView,
    t: Theme,
    m: PaintMetrics,
    panels: Seq<PanelArea>,
    buttons: Seq<(ButtonId, Rect)>,
    j: int,
    i: int,
)
    requires
        0 <= j < buttons.len(),
        button_glyph(buttons[j].0, f) is None,
        button_start(panels, buttons, j, f, client, t, m) <= i < button_start(panels, buttons, j + 1, f, client, t, m),
    ensures
        !(frame_ops(client, f, t, m, panels, buttons)[i] is Glyph),
{
    lemma_button_segment(client, f, t, m, panels, buttons, j);
    lemma_button_glyph(buttons[j].0, buttons[j].1, f, t, m);
    let all = frame_ops(client, f, t, m, panels, buttons);
    let lo = button_start(panels, buttons, j, f, client, t, m);
    let seg = all.subrange(lo, button_start(panels, buttons, j + 1, f, client, t, m));
    assert(seg[i - lo] == all[i]);
}

proof fn lemma_panel_segment(
    client: Rect,
    f: FrameView,
    t: Theme,
    m: PaintMetrics,
    panels: Seq<PanelArea>,
    buttons: Seq<(ButtonId, Rect)>,
    k: int,
)
    requires
        0 <= k < panels.len(),
    ensures
        frame_ops(client, f, t, m, panels, buttons).subrange(
            panel_start(panels, k, f, client, t, m),
            panel_start(panels, k + 1, f, client, t, m),
        ) == panel_ops(panels[k], f.dock.occupant(k), client, t, m),
        0 <= panel_start(panels, k, f, client, t, m) <= panel_start(panels, k + 1, f, client, t, m)
            <= frame_ops(client, f, t, m, panels, buttons).len(),
{
    let all = frame_ops(client, f, t, m, panels, buttons);
    let base = base_ops(client, t, m);
    let np = panels.len() as int;
    let pall = panels_ops(panels, np, f, client, t, m);
    lemma_panels_ops_prefix(panels, k + 1, np, f, client, t, m);
    let pk = panels_ops(panels, k, f, client, t, m);
    let pk1 = panels_ops(panels, k + 1, f, client, t, m);
    let lo = (base.len() + pk.len()) as int;
    let hi = (base.len() + pk1.len()) as int;
    assert(all.subrange(lo, hi) =~= pall.subrange(0, pk1.len() as int).subrange(pk.len() as int, pk1.len() as int));
    assert(pk1.subrange(pk.len() as int, pk1.len() as int) =~= panel_ops(panels[k], f.dock.occupant(k), client, t, m));
}

proof fn lemma_button_segment(
    client: Rect,
    f: FrameView,
    t: Theme,
    m: PaintMetrics,
    panels: Seq<PanelArea>,
    buttons: Seq<(ButtonId, Rect)>,
    j: int,
)
    requires
        0 <= j < buttons.len(),
    ensures
        frame_ops(client, f, t, m, panels, buttons).subrange(
            button_start(panels, buttons, j, f, client, t, m),
            button_start(panels, buttons, j + 1, f, client, t, m),
        ) == button_ops(buttons[j].0, buttons[j].1, f, t, m),
        0 <= button_start(panels, buttons, j, f, client, t, m) <= button_start(panels, buttons, j + 1, f, client, t, m)
            <= frame_ops(client, f, t, m, panels, buttons).len(),
{
    let all = frame_ops(client, f, t, m, panels, buttons);
    let base = base_ops(client, t, m);
    let pall = panels_ops(panels, panels.len() as int, f, client, t, m);
    let nb = buttons.len() as int;
    let ball = buttons_ops(buttons, nb, f, t, m);
    lemma_buttons_ops_prefix(buttons, j + 1, nb, f, t, m);
    let bj = buttons_ops(buttons, j, f, t, m);
    let bj1 = buttons_ops(buttons, j + 1, f, t, m);
    let lo = (base.len() + pall.len() + bj.len()) as int;
    let hi = (base.len() + pall.len() + bj1.len()) as int;
    assert(all.subrange(lo, hi) =~= ball.subrange(0, bj1.len() as int).subrange(bj.len() as int, bj1.len() as int));
    assert(bj1.subrange(bj.len() as int, bj1.len() as int) =~= button_ops(buttons[j].0, buttons[j].1, f, t, m));
}

proof fn lemma_button_glyph(b: ButtonId, r: Rect, f: FrameView, t: Theme, m: PaintMetrics)
    ensures
        match button_glyph(b, f) {
            Some(g) => draws_glyph(button_ops(b, r, f, t, m).last(), r, g),
            None => forall|i: int| 0 <= i < button_ops(b, r, f, t, m).len() ==> !(#[trigger] button_ops(b, r, f, t, m)[i] is Glyph),
        },
{
    let ops = button_ops(b, r, f, t, m);
    let hovered = f.hover == Some(b);
    match b {
        ButtonId::Preset(p) => {
            assert forall|i: int| 0 <= i < ops.len() implies !(#[trigger] ops[i] is Glyph) by {
                let h = hover_fill(hovered, r, t.hover);
                if i < h.len() {
                    assert(ops[i] == h[i]);
                }
            }
        },
        ButtonId::PanelMax(i) => {
            if f.dock.occupant(i as int) is None {
                assert(ops.len() == 0);
            }
        },
        _ => {},
    }
}

} // verus!
