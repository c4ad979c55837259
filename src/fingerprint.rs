//! Transmit fingerprints: the IP and TCP parameters of an impersonated device.
use vstd::prelude::*;

use crate::tcp::template::{options_bytes, template_bytes, TcpOpt, TcpTemplate};
use crate::tcp::{FLAG_ACK, FLAG_PSH, FLAG_RST, FLAG_SYN};

verus! {

#[derive(Debug)]
pub struct Fingerprint {
    /// Initial time to live.
    pub ittl: u8,
    pub mss: u16,
    pub window: u16,
    pub options: Vec<TcpOpt>,
    /// The SYN template, rendered once.
    pub syn_template: TcpTemplate,
}

impl Fingerprint {
    /// The SYN template is rendered from the window and options, which fit
    /// in a TCP header.
    pub open spec fn wf(&self) -> bool {
        &&& options_bytes(self.options@).len() <= 40
        &&& self.syn_template.wf()
        &&& self.syn_template.bytes() == template_bytes(FLAG_SYN, self.window, self.options@)
    }

    pub fn get_syn(&self) -> (r: TcpTemplate)
        requires
            self.wf(),
        ensures
            r.wf(),
            r.bytes() == template_bytes(FLAG_SYN, self.window, self.options@),
            20 <= r.bytes().len() <= 60,
    {
        self.syn_template.duplicate()
    }

    pub fn get_ack(&self) -> (r: TcpTemplate)
        requires
            self.wf(),
        ensures
            r.wf(),
            r.bytes() == template_bytes(FLAG_ACK, self.window, self.options@),
            20 <= r.bytes().len() <= 60,
    {
        TcpTemplate::new(FLAG_ACK, self.window, self.options.as_slice())
    }

    pub fn get_rst(&self) -> (r: TcpTemplate)
        requires
            self.wf(),
        ensures
            r.wf(),
            r.bytes() == template_bytes(FLAG_RST, self.window, self.options@),
            20 <= r.bytes().len() <= 60,
    {
        TcpTemplate::new(FLAG_RST, self.window, self.options.as_slice())
    }

    pub fn get_psh(&self) -> (r: TcpTemplate)
        requires
            self.wf(),
        ensures
            r.wf(),
            r.bytes() == template_bytes(FLAG_PSH | FLAG_ACK, self.window, self.options@),
            20 <= r.bytes().len() <= 60,
    {
        TcpTemplate::new(FLAG_PSH | FLAG_ACK, self.window, self.options.as_slice())
    }

    fn new(ittl: u8, mss: u16, window: u16, options: Vec<TcpOpt>) -> (r: Self)
        requires
            options_bytes(options@).len() <= 40,
        ensures
            r.wf(),
            r.ittl == ittl,
            r.mss == mss,
            r.window == window,
            r.options@ == options@,
    {
        let syn_template = TcpTemplate::new(FLAG_SYN, window, options.as_slice());
        Fingerprint { ittl, mss, window, options, syn_template }
    }

    /// The Nintendo 3DS, after the p0f signature
    /// `*:64:0:1360:32768,0:mss,nop,nop,sok:df,id+:0`.
    pub fn nintendo_3ds() -> (r: Self)
        ensures
            r.wf(),
            r.ittl == 64,
            r.mss == 1360,
            r.window == 32768,
            r.options@ == seq![
                TcpOpt::Mss(1360),
                TcpOpt::Nop,
                TcpOpt::Nop,
                TcpOpt::SackPermitted,
            ],
    {
        let options = vec![TcpOpt::Mss(1360), TcpOpt::Nop, TcpOpt::Nop, TcpOpt::SackPermitted];
        proof {
            let os = options@;
            assert(os.drop_last().drop_last().drop_last().drop_last() =~= Seq::<TcpOpt>::empty());
            reveal_with_fuel(options_bytes, 5);
            assert(options_bytes(os).len() == 8);
        }
        Fingerprint::new(64, 1360, 32768, options)
    }
}

} // verus!
