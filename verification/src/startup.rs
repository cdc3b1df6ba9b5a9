//! What the program does when it starts: the connection that the environment asks for.
use vstd::prelude::*;
use vstd::string::*;

use crate::saved::{
    AuthMethod, AuthView, ConnectConfig, ConnectView, JumpHost, JumpView, Transport,
};
use crate::text::{fields, fields_of, parse_u16, parse_unsigned, same, u16_of, unsigned_of};

verus! {

/// The host that a connection goes through, written as host, port, user and key file with bars
/// between them; a port that cannot be read is 22.
pub open spec fn jump_of(s: Seq<char>) -> Option<JumpView> {
    let p = fields_of(s, '|');
    if p.len() == 4 {
        Some(
            JumpView {
                host: p[0],
                port: match u16_of(p[1]) {
                    Some(n) => n,
                    None => 22,
                },
                username: p[2],
                auth: AuthView::KeyFile { path: p[3], passphrase: None },
            },
        )
    } else {
        None
    }
}

/// The connection that is written as host, port, user and key file with bars between them; the
/// word `agent` in place of the file asks the agent for the key.
pub open spec fn autoconnect_of(s: Seq<char>, jump: Option<Seq<char>>) -> Option<ConnectView> {
    let p = fields_of(s, '|');
    if p.len() == 4 && u16_of(p[1]) is Some {
        Some(
            ConnectView {
                host: p[0],
                port: u16_of(p[1])->0,
                username: p[2],
                auth: if p[3] == "agent"@ {
                    AuthView::Agent
                } else {
                    AuthView::KeyFile { path: p[3], passphrase: None }
                },
                label: Seq::empty(),
                jump: match jump {
                    Some(j) => jump_of(j),
                    None => None,
                },
                forward_agent: false,
                transport: Transport::Ssh,
            },
        )
    } else {
        None
    }
}

fn jump_host(s: &str) -> (r: Option<JumpHost>)
    ensures
        match r {
            Some(j) => jump_of(s@) == Some(j@),
            None => jump_of(s@) is None,
        },
{
    let mut p = fields(s, '|');
    if p.len() != 4 {
        return None;
    }
    let port: u16 = match parse_u16(p[1].as_str()) {
        Some(n) => n,
        None => 22,
    };
    let path = p[3].clone();
    let username = p[2].clone();
    let host = p[0].clone();
    Some(JumpHost { host, port, username, auth: AuthMethod::KeyFile { path, passphrase: None } })
}

/// Reads the connection that the environment asks for.
pub fn autoconnect(s: &str, jump: Option<&str>) -> (r: Option<ConnectConfig>)
    ensures
        ({
            let j = match jump {
                Some(j) => Some(j@),
                None => None,
            };
            match r {
                Some(c) => autoconnect_of(s@, j) == Some(c@),
                None => autoconnect_of(s@, j) is None,
            }
        }),
{
    let p = fields(s, '|');
    if p.len() != 4 {
        return None;
    }
    let port: u16 = match parse_u16(p[1].as_str()) {
        Some(n) => n,
        None => {
            return None;
        },
    };
    let auth = if same(p[3].as_str(), "agent") {
        AuthMethod::Agent
    } else {
        AuthMethod::KeyFile { path: p[3].clone(), passphrase: None }
    };
    let via = match jump {
        Some(j) => jump_host(j),
        None => None,
    };
    let label = String::new();
    assert(label@ =~= Seq::<char>::empty());
    Some(
        ConnectConfig {
            host: p[0].clone(),
            port,
            username: p[2].clone(),
            auth,
            label,
            jump: via,
            forward_agent: false,
            transport: Transport::Ssh,
        },
    )
}

/// After how many seconds a picture of the window is taken: five where the number cannot be read.
pub fn shot_secs(s: Option<&str>) -> (r: u64)
    ensures
        r == (match s {
            Some(s) => match unsigned_of(s@, u64::MAX as nat) {
                Some(n) => n as u64,
                None => 5,
            },
            None => 5,
        }),
{
    match s {
        Some(s) => match parse_unsigned(s, 0xffff_ffff_ffff_ffff) {
            Some(n) => n,
            None => 5,
        },
        None => 5,
    }
}

/// The pixels of a picture to try the viewer with: red grows to the right, green downwards.
pub fn gradient(w: usize, h: usize) -> (px: Vec<u8>)
    requires
        0 < w <= 4096,
        0 < h <= 4096,
    ensures
        px@.len() == 4 * w * h,
        forall|x: int, y: int|
            0 <= x < w && 0 <= y < h ==> #[trigger] pixel(px@, w as int, x, y) == seq![
                (x * 255 / w as int) as u8,
                (y * 255 / h as int) as u8,
                128u8,
                255u8,
            ],
{
    let mut px: Vec<u8> = Vec::new();
    let mut y: usize = 0;
    assert(4 * w * 0 == 0) by (nonlinear_arith);
    while y < h
        invariant
            0 < w <= 4096,
            0 < h <= 4096,
            y <= h,
            px@.len() == 4 * w * y,
            forall|i: int, j: int|
                0 <= i < w && 0 <= j < y ==> #[trigger] pixel(px@, w as int, i, j) == seq![
                    (i * 255 / w as int) as u8,
                    (j * 255 / h as int) as u8,
                    128u8,
                    255u8,
                ],
        decreases h - y,
    {
        let mut x: usize = 0;
        let ghost rows = px@;
        while x < w
            invariant
                0 < w <= 4096,
                0 < h <= 4096,
                y < h,
                x <= w,
                rows.len() == 4 * w * y,
                px@.len() == 4 * w * y + 4 * x,
                px@.take(rows.len() as int) == rows,
                forall|i: int|
                    0 <= i < x ==> #[trigger] pixel(px@, w as int, i, y as int) == seq![
                        (i * 255 / w as int) as u8,
                        (y * 255 / h as int) as u8,
                        128u8,
                        255u8,
                    ],
            decreases w - x,
        {
            let ghost had = px@;
            assert(x * 255 / w as int <= 255) by (nonlinear_arith)
                requires
                    0 < w,
                    x < w,
            ;
            assert(y * 255 / h as int <= 255) by (nonlinear_arith)
                requires
                    0 < h,
                    y < h,
            ;
            px.push((x * 255 / w) as u8);
            px.push((y * 255 / h) as u8);
            px.push(128);
            px.push(255);
            proof {
                assert(4 * w * y + 4 * x == 4 * (w * y + x)) by (nonlinear_arith);
                assert(4 * (y * w + x) == 4 * (w * y + x)) by (nonlinear_arith);
                assert(pixel(px@, w as int, x as int, y as int) =~= seq![
                    (x * 255 / w as int) as u8,
                    (y * 255 / h as int) as u8,
                    128u8,
                    255u8,
                ]);
                assert forall|i: int| 0 <= i < x implies #[trigger] pixel(
                    px@,
                    w as int,
                    i,
                    y as int,
                ) == pixel(had, w as int, i, y as int) by {
                    assert(4 * (y * w + i) + 4 <= 4 * w * y + 4 * x && 0 <= 4 * (y * w + i))
                        by (nonlinear_arith)
                        requires
                            0 <= i < x,
                    ;
                    assert(pixel(px@, w as int, i, y as int) =~= pixel(
                        had,
                        w as int,
                        i,
                        y as int,
                    ));
                }
                assert(px@.take(rows.len() as int) =~= had.take(rows.len() as int));
            }
            x = x + 1;
        }
        proof {
            assert(4 * w * y + 4 * w == 4 * w * (y + 1)) by (nonlinear_arith);
            assert forall|i: int, j: int| 0 <= i < w && 0 <= j < y + 1 implies #[trigger] pixel(
                px@,
                w as int,
                i,
                j,
            ) == seq![
                (i * 255 / w as int) as u8,
                (j * 255 / h as int) as u8,
                128u8,
                255u8,
            ] by {
                if j < y {
                    assert(4 * (j * w + i) + 4 <= 4 * w * y && 0 <= 4 * (j * w + i))
                        by (nonlinear_arith)
                        requires
                            0 <= i < w,
                            0 <= j < y,
                    ;
                    assert forall|k: int| 0 <= k < rows.len() implies px@[k] == rows[k] by {
                        assert(px@.take(rows.len() as int)[k] == rows[k]);
                    }
                    assert(pixel(px@, w as int, i, j) =~= pixel(rows, w as int, i, j));
                }
            }
        }
        y = y + 1;
    }
    px
}

/// The four bytes of a pixel.
pub open spec fn pixel(px: Seq<u8>, w: int, x: int, y: int) -> Seq<u8> {
    px.subrange(4 * (y * w + x), 4 * (y * w + x) + 4)
}

} // verus!
