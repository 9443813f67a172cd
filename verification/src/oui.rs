//! Vendor identification from the organizationally unique identifier (the
//! first three octets) of a MAC address.

use vstd::prelude::*;

verus! {

/// The vendor a MAC address is attributed to.
#[derive(Clone, Copy, Debug, PartialEq, Eq)]
pub enum Vendor {
    /// A locally administered address, as phones use for privacy.
    Randomized,
    /// OUIs registered to Apple.
    Apple,
    /// OUIs registered to Samsung.
    Samsung,
    /// OUIs registered to ASUS.
    Asus,
    /// OUIs registered to Amazon.
    Amazon,
    /// OUIs registered to Google.
    Google,
    /// OUIs registered to Raspberry Pi.
    RaspberryPi,
    /// OUIs registered to TP-Link.
    TpLink,
    /// OUIs registered to Netgear.
    Netgear,
    /// OUIs registered to Intel.
    Intel,
    /// OUIs registered to Xiaomi.
    Xiaomi,
    /// OUIs registered to Huawei.
    Huawei,
    /// OUIs registered to Sony.
    Sony,
    /// OUIs registered to LG.
    Lg,
    /// OUIs registered to Realtek.
    Realtek,
}

/// The name shown for a vendor.
pub open spec fn vendor_name(v: Vendor) -> Seq<char> {
    match v {
        Vendor::Randomized => "Randomized"@,
        Vendor::Apple => "Apple"@,
        Vendor::Samsung => "Samsung"@,
        Vendor::Asus => "ASUS"@,
        Vendor::Amazon => "Amazon"@,
        Vendor::Google => "Google"@,
        Vendor::RaspberryPi => "Raspberry Pi"@,
        Vendor::TpLink => "TP-Link"@,
        Vendor::Netgear => "Netgear"@,
        Vendor::Intel => "Intel"@,
        Vendor::Xiaomi => "Xiaomi"@,
        Vendor::Huawei => "Huawei"@,
        Vendor::Sony => "Sony"@,
        Vendor::Lg => "LG"@,
        Vendor::Realtek => "Realtek"@,
    }
}

impl Vendor {
    /// The name shown for the vendor.
    pub fn name(&self) -> (r: &'static str)
        ensures
            r@ == vendor_name(*self),
    {
        match self {
            Vendor::Randomized => "Randomized",
            Vendor::Apple => "Apple",
            Vendor::Samsung => "Samsung",
            Vendor::Asus => "ASUS",
            Vendor::Amazon => "Amazon",
            Vendor::Google => "Google",
            Vendor::RaspberryPi => "Raspberry Pi",
            Vendor::TpLink => "TP-Link",
            Vendor::Netgear => "Netgear",
            Vendor::Intel => "Intel",
            Vendor::Xiaomi => "Xiaomi",
            Vendor::Huawei => "Huawei",
            Vendor::Sony => "Sony",
            Vendor::Lg => "LG",
            Vendor::Realtek => "Realtek",
        }
    }
}

/// The vendor an OUI (`0xAABBCC` for `aa:bb:cc`) is registered to, among the
/// ones this table knows.
pub open spec fn oui_vendor(oui: u32) -> Option<Vendor> {
    match oui {
        0x000393 | 0x000a27 | 0x000a95 | 0x0016cb | 0x0017f2 | 0x001b63 | 0x001cb3 | 0x002312
        | 0x002332 | 0x0026bb | 0x28cfda | 0x34159e | 0x3c15c2 | 0x403004 | 0x4860bc | 0x54724f
        | 0x581faa | 0x60f81d | 0x64200c | 0x685b35 | 0x6cab31 | 0x703eac | 0x7831c1 | 0x7cfadf
        | 0x80929f | 0x84b153 | 0x88532e | 0x8c5877 | 0x9027e4 | 0x9cf387 | 0xa45e60 | 0xa851ab
        | 0xacbc32 | 0xacde48 | 0xb0702d | 0xb4f0ab | 0xb853ac | 0xb8782e | 0xbc52b7 | 0xc0cecd
        | 0xc88550 | 0xcc088d | 0xcc29f5 | 0xd4619d | 0xd81d72 | 0xd89e3f | 0xdc2b2a | 0xdc86d8
        | 0xe06678 | 0xe425e7 | 0xe49a79 | 0xe8040b | 0xec3586 | 0xf0b479 | 0xf0cba1 | 0xf0d1a9
        | 0xf41ba1 | 0xf437b7 | 0xf4f15a | 0xf81edf | 0xf82793 | 0xfc253f | 0xfce998 | 0x9c207b
        | 0xa0d795 | 0x3c2ef9 | 0x4c57ca | 0x50ead6 | 0x542696 | 0x5c5948 | 0x60334b | 0x6476ba
        | 0x6c4008 | 0x6c72e7 | 0x705681 | 0x70cd60 | 0x74e1b6 | 0x784f43 | 0x7c0191 | 0x7c6d62
        | 0x7cd1c3 | 0x80006e | 0x804971 | 0x80e650 | 0x843835 | 0x848506 | 0x84fcac | 0x881fa1
        | 0x8c006d | 0x8c7b9d | 0x8cfaba | 0x903c92 | 0x9060f0 | 0x908d6c | 0x9801a7 | 0x9810e8
        | 0x98fe94 | 0x9c04eb | 0x9c35eb | 0x9c84bf => Some(Vendor::Apple),
        0x0015b9 | 0x0017c9 | 0x002119 | 0x0808c2 | 0x08d40c | 0x0c1420 | 0x183f47 | 0x206432
        | 0x28bab5 | 0x34145f | 0x380197 | 0x3c5a37 | 0x400e85 | 0x44783e | 0x4844f7 | 0x5001bb
        | 0x50a4c8 | 0x54880e | 0x5c4979 | 0x60af6d | 0x682737 | 0x70f927 | 0x7840e4 | 0x8425db
        | 0x88329b | 0x8c7712 | 0x94350a | 0x9852b1 | 0xa00798 | 0xa4ebd3 | 0xac5f3e | 0xb43a28
        | 0xbcb1f3 | 0xc44202 | 0xc81479 | 0xd022be | 0xd48890 | 0xd857ef | 0xe440e2 | 0xe458b8
        | 0xe8508b | 0xf025b7 | 0xf409d8 | 0x0012fb | 0x001377 | 0x001632 | 0x00166b | 0x0017d5
        | 0x001a8a | 0x001b98 | 0x001d25 | 0x001e7d | 0x2c54cf | 0x301966 | 0x382de8 | 0x44f459
        | 0x503275 | 0x508569 | 0x50ccf8 | 0x549b12 | 0x58ef68 | 0x647791 | 0x68ebae | 0x70288b
        | 0x74458a | 0x7825ad | 0x7c1c4e | 0x80656d | 0x843838 | 0x8c71f8 | 0x90187c | 0x9463d1
        | 0x9c3aaf | 0xa00bba | 0xa87d12 | 0xb047bf | 0xb072bf | 0xb479a7 | 0xbc20ba | 0xbc8ccd
        | 0xc09727 | 0xc4576e | 0xc4731e | 0xc8ba94 | 0xcc07ab | 0xd059e4 | 0xd89695 | 0xdc7196
        | 0xe47cf9 | 0xe81132 | 0xec1f72 | 0xec9bf3 | 0xf8042e | 0xf8d0bd => Some(Vendor::Samsung),
        0x000c6e | 0x000ea6 | 0x00112f | 0x001a92 | 0x001e8c | 0x04d4c4 | 0x08606e | 0x107b44
        | 0x10bf48 | 0x14dae9 | 0x1c872c | 0x244bfe | 0x2c56dc | 0x305a3a | 0x382c4a | 0x3c970e
        | 0x40167e | 0x4cedfb | 0x50465d | 0x5404a6 | 0x5cff35 | 0x6045cb | 0x6cf37f | 0x74d02b
        | 0x7824af | 0x801f02 | 0x88d7f6 | 0x909f33 | 0x94de80 | 0xa85e45 | 0xb06ebf | 0xd017c2
        | 0xe03f49 | 0xf02f74 | 0xf832e4 | 0xfc3497 | 0x0013d4 | 0x0015f2 | 0x001731 | 0x001bfc
        | 0x001fc6 | 0x002215 | 0x002354 | 0x00248c | 0x002522 | 0x049226 | 0x086266 | 0x1c7508
        | 0x20cf30 | 0x2c4d54 | 0x2cfda1 | 0x485b39 | 0x6c626d | 0x7403bd | 0xbcee7b | 0xc86000
        | 0xd850e6 | 0xe43a6e | 0xe894f6 | 0xe89c25 => Some(Vendor::Asus),
        0x00bb3a | 0x087402 | 0x0c47c9 | 0x18742e | 0x34d270 | 0x40b4cd | 0x44650d | 0x50f5da
        | 0x6837e9 | 0x74c246 | 0x84d6d0 | 0x8871e5 | 0xa002dc | 0xb47c9c | 0xcc9ea2 | 0xd0f88c
        | 0xf0a225 | 0xf0f0a4 | 0x10ae60 | 0x1c12b0 | 0x20fe4b | 0x24df6a | 0x38f73d | 0x482335
        | 0x4cefc0 | 0x544d90 | 0x8c4962 => Some(Vendor::Amazon),
        0x001a11 | 0x089e08 | 0x1cf29a | 0x20dfb9 | 0x3c286d | 0x48d6d5 | 0x546009 | 0x703acb
        | 0x9495a0 | 0xa47733 | 0xf4f5d8 | 0x6cadf8 | 0x7c2ebd | 0xb0e03b => Some(Vendor::Google),
        0x28cdc1 | 0x2ccf67 | 0xb827eb | 0xd83add | 0xdca632 | 0xe45f01 => Some(Vendor::RaspberryPi),
        0x002719 | 0x0418d6 | 0x14cc20 | 0x1c61b4 | 0x20dce6 | 0x28285d | 0x2c27d7 | 0x3460f9
        | 0x3c846a | 0x5091e3 | 0x54c80f | 0x60a4b7 | 0x6c5ab0 | 0x74da38 | 0x7c8bca | 0x8416f9
        | 0x90f652 | 0x940c6d | 0xa0f3c1 | 0xb09575 | 0xb4b024 | 0xc46e1f | 0xc80e14 | 0xd807b6
        | 0xe8de27 | 0xec086b | 0xf0a731 | 0xf4ec38 | 0xf81a67 => Some(Vendor::TpLink),
        0x00095b | 0x00146c | 0x001b2f | 0x001e2a | 0x001f33 | 0x0024b2 | 0x0836c9 | 0x0c3dc9
        | 0x181beb | 0x1caff7 | 0x28c68e | 0x2cb05d | 0x38700c | 0x4c60de | 0x6cb0ce | 0x744401
        | 0x803773 | 0x841b5e | 0x9cd36d | 0xa021b7 | 0xb07fb9 | 0xc8d719 | 0xd47b35 => Some(Vendor::Netgear),
        0x0002b3 | 0x000347 | 0x000e0c | 0x001302 | 0x001500 | 0x001517 | 0x001641 | 0x001b21
        | 0x001de0 | 0x4025c2 | 0x448500 | 0x4851b7 | 0x54271e | 0x5c514f | 0x7c7635 | 0xa08869
        | 0xa4c3f0 | 0xb4b676 | 0xe4a7c5 | 0x001e64 | 0x001e65 | 0x001f3b | 0x001f3c | 0x00215c
        | 0x00215d | 0x8cec4b | 0x9cb6d0 => Some(Vendor::Intel),
        0x0c1daf | 0x14f65a | 0x185936 | 0x2082c0 | 0x286c07 | 0x3480b3 | 0x50642b | 0x584498
        | 0x640980 | 0x64b473 | 0x7811dc | 0x8cbebe | 0x94fbb2 | 0x98fae3 | 0xa086c6 | 0xf48b32
        | 0xf8a45f | 0x2cdb07 | 0x34ce00 | 0x4c49e3 | 0x58a2b5 | 0x68dfdd | 0x6ce873 | 0x742344
        | 0x7802f8 | 0x9c99a0 | 0xacc1ee | 0xb0e235 | 0xd4970b | 0xe446da => Some(Vendor::Xiaomi),
        0x001882 | 0x00259e | 0x04021f | 0x0c37dc | 0x101b54 | 0x149d09 | 0x18c58a | 0x1c8e5c
        | 0x244c07 | 0x2cab00 | 0x30d17e | 0x342912 | 0x404d8e | 0x4c1fcc | 0x54511b | 0x60de44
        | 0x70723c | 0x80d09b | 0x84a9c4 | 0x94049c | 0x9c741a | 0xa0086f | 0xace215 | 0xb41513
        | 0xc4ff1f | 0xcc53b5 | 0xd46e5c | 0xdc729b | 0xe0191d | 0xf4c714 => Some(Vendor::Huawei),
        0x00014a | 0x00041f | 0x000d4b | 0x0013a9 | 0x00194e | 0x001a80 | 0x001d0d | 0x280dfc
        | 0x3017c8 | 0x3c01ef | 0x40b0fa | 0x544249 | 0x702dd4 | 0x88c9e8 | 0x9cad97 | 0xa0e453
        | 0xb05cda | 0xc4438f | 0xf87b20 | 0xd8d43c | 0xe0ae5e | 0xf0bf97 => Some(Vendor::Sony),
        0x001e75 | 0x001f6b | 0x002483 | 0x0026e2 | 0x04b167 | 0x10683f | 0x14b484 | 0x1c08c1
        | 0x1c994c | 0x283f69 | 0x301aa3 | 0x404e36 | 0x485929 | 0x4cbd8f | 0x505527 | 0x54fcf3
        | 0x5c70a3 | 0x6021c0 | 0x7438b7 | 0x7c66ef | 0x88c9d0 | 0x90e6ba | 0xa816d0 | 0xacafb9
        | 0xbcf5ac | 0xc80873 | 0xd013fd | 0xd81399 | 0xe888d3 => Some(Vendor::Lg),
        0x00016c | 0x00e04c | 0x08beac | 0x309c23 | 0x40b034 | 0x44c306 | 0x525400 | 0x6c4b90
        | 0x8c1645 | 0xe0d55e => Some(Vendor::Realtek),
        _ => None,
    }
}

/// `oui_vendor(oui)`.
pub fn lookup_oui(oui: u32) -> (r: Option<Vendor>)
    ensures
        r == oui_vendor(oui),
{
    match oui {
        0x000393 | 0x000a27 | 0x000a95 | 0x0016cb | 0x0017f2 | 0x001b63 | 0x001cb3 | 0x002312
        | 0x002332 | 0x0026bb | 0x28cfda | 0x34159e | 0x3c15c2 | 0x403004 | 0x4860bc | 0x54724f
        | 0x581faa | 0x60f81d | 0x64200c | 0x685b35 | 0x6cab31 | 0x703eac | 0x7831c1 | 0x7cfadf
        | 0x80929f | 0x84b153 | 0x88532e | 0x8c5877 | 0x9027e4 | 0x9cf387 | 0xa45e60 | 0xa851ab
        | 0xacbc32 | 0xacde48 | 0xb0702d | 0xb4f0ab | 0xb853ac | 0xb8782e | 0xbc52b7 | 0xc0cecd
        | 0xc88550 | 0xcc088d | 0xcc29f5 | 0xd4619d | 0xd81d72 | 0xd89e3f | 0xdc2b2a | 0xdc86d8
        | 0xe06678 | 0xe425e7 | 0xe49a79 | 0xe8040b | 0xec3586 | 0xf0b479 | 0xf0cba1 | 0xf0d1a9
        | 0xf41ba1 | 0xf437b7 | 0xf4f15a | 0xf81edf | 0xf82793 | 0xfc253f | 0xfce998 | 0x9c207b
        | 0xa0d795 | 0x3c2ef9 | 0x4c57ca | 0x50ead6 | 0x542696 | 0x5c5948 | 0x60334b | 0x6476ba
        | 0x6c4008 | 0x6c72e7 | 0x705681 | 0x70cd60 | 0x74e1b6 | 0x784f43 | 0x7c0191 | 0x7c6d62
        | 0x7cd1c3 | 0x80006e | 0x804971 | 0x80e650 | 0x843835 | 0x848506 | 0x84fcac | 0x881fa1
        | 0x8c006d | 0x8c7b9d | 0x8cfaba | 0x903c92 | 0x9060f0 | 0x908d6c | 0x9801a7 | 0x9810e8
        | 0x98fe94 | 0x9c04eb | 0x9c35eb | 0x9c84bf => Some(Vendor::Apple),
        0x0015b9 | 0x0017c9 | 0x002119 | 0x0808c2 | 0x08d40c | 0x0c1420 | 0x183f47 | 0x206432
        | 0x28bab5 | 0x34145f | 0x380197 | 0x3c5a37 | 0x400e85 | 0x44783e | 0x4844f7 | 0x5001bb
        | 0x50a4c8 | 0x54880e | 0x5c4979 | 0x60af6d | 0x682737 | 0x70f927 | 0x7840e4 | 0x8425db
        | 0x88329b | 0x8c7712 | 0x94350a | 0x9852b1 | 0xa00798 | 0xa4ebd3 | 0xac5f3e | 0xb43a28
        | 0xbcb1f3 | 0xc44202 | 0xc81479 | 0xd022be | 0xd48890 | 0xd857ef | 0xe440e2 | 0xe458b8
        | 0xe8508b | 0xf025b7 | 0xf409d8 | 0x0012fb | 0x001377 | 0x001632 | 0x00166b | 0x0017d5
        | 0x001a8a | 0x001b98 | 0x001d25 | 0x001e7d | 0x2c54cf | 0x301966 | 0x382de8 | 0x44f459
        | 0x503275 | 0x508569 | 0x50ccf8 | 0x549b12 | 0x58ef68 | 0x647791 | 0x68ebae | 0x70288b
        | 0x74458a | 0x7825ad | 0x7c1c4e | 0x80656d | 0x843838 | 0x8c71f8 | 0x90187c | 0x9463d1
        | 0x9c3aaf | 0xa00bba | 0xa87d12 | 0xb047bf | 0xb072bf | 0xb479a7 | 0xbc20ba | 0xbc8ccd
        | 0xc09727 | 0xc4576e | 0xc4731e | 0xc8ba94 | 0xcc07ab | 0xd059e4 | 0xd89695 | 0xdc7196
        | 0xe47cf9 | 0xe81132 | 0xec1f72 | 0xec9bf3 | 0xf8042e | 0xf8d0bd => Some(Vendor::Samsung),
        0x000c6e | 0x000ea6 | 0x00112f | 0x001a92 | 0x001e8c | 0x04d4c4 | 0x08606e | 0x107b44
        | 0x10bf48 | 0x14dae9 | 0x1c872c | 0x244bfe | 0x2c56dc | 0x305a3a | 0x382c4a | 0x3c970e
        | 0x40167e | 0x4cedfb | 0x50465d | 0x5404a6 | 0x5cff35 | 0x6045cb | 0x6cf37f | 0x74d02b
        | 0x7824af | 0x801f02 | 0x88d7f6 | 0x909f33 | 0x94de80 | 0xa85e45 | 0xb06ebf | 0xd017c2
        | 0xe03f49 | 0xf02f74 | 0xf832e4 | 0xfc3497 | 0x0013d4 | 0x0015f2 | 0x001731 | 0x001bfc
        | 0x001fc6 | 0x002215 | 0x002354 | 0x00248c | 0x002522 | 0x049226 | 0x086266 | 0x1c7508
        | 0x20cf30 | 0x2c4d54 | 0x2cfda1 | 0x485b39 | 0x6c626d | 0x7403bd | 0xbcee7b | 0xc86000
        | 0xd850e6 | 0xe43a6e | 0xe894f6 | 0xe89c25 => Some(Vendor::Asus),
        0x00bb3a | 0x087402 | 0x0c47c9 | 0x18742e | 0x34d270 | 0x40b4cd | 0x44650d | 0x50f5da
        | 0x6837e9 | 0x74c246 | 0x84d6d0 | 0x8871e5 | 0xa002dc | 0xb47c9c | 0xcc9ea2 | 0xd0f88c
        | 0xf0a225 | 0xf0f0a4 | 0x10ae60 | 0x1c12b0 | 0x20fe4b | 0x24df6a | 0x38f73d | 0x482335
        | 0x4cefc0 | 0x544d90 | 0x8c4962 => Some(Vendor::Amazon),
        0x001a11 | 0x089e08 | 0x1cf29a | 0x20dfb9 | 0x3c286d | 0x48d6d5 | 0x546009 | 0x703acb
        | 0x9495a0 | 0xa47733 | 0xf4f5d8 | 0x6cadf8 | 0x7c2ebd | 0xb0e03b => Some(Vendor::Google),
        0x28cdc1 | 0x2ccf67 | 0xb827eb | 0xd83add | 0xdca632 | 0xe45f01 => Some(Vendor::RaspberryPi),
        0x002719 | 0x0418d6 | 0x14cc20 | 0x1c61b4 | 0x20dce6 | 0x28285d | 0x2c27d7 | 0x3460f9
        | 0x3c846a | 0x5091e3 | 0x54c80f | 0x60a4b7 | 0x6c5ab0 | 0x74da38 | 0x7c8bca | 0x8416f9
        | 0x90f652 | 0x940c6d | 0xa0f3c1 | 0xb09575 | 0xb4b024 | 0xc46e1f | 0xc80e14 | 0xd807b6
        | 0xe8de27 | 0xec086b | 0xf0a731 | 0xf4ec38 | 0xf81a67 => Some(Vendor::TpLink),
        0x00095b | 0x00146c | 0x001b2f | 0x001e2a | 0x001f33 | 0x0024b2 | 0x0836c9 | 0x0c3dc9
        | 0x181beb | 0x1caff7 | 0x28c68e | 0x2cb05d | 0x38700c | 0x4c60de | 0x6cb0ce | 0x744401
        | 0x803773 | 0x841b5e | 0x9cd36d | 0xa021b7 | 0xb07fb9 | 0xc8d719 | 0xd47b35 => Some(Vendor::Netgear),
        0x0002b3 | 0x000347 | 0x000e0c | 0x001302 | 0x001500 | 0x001517 | 0x001641 | 0x001b21
        | 0x001de0 | 0x4025c2 | 0x448500 | 0x4851b7 | 0x54271e | 0x5c514f | 0x7c7635 | 0xa08869
        | 0xa4c3f0 | 0xb4b676 | 0xe4a7c5 | 0x001e64 | 0x001e65 | 0x001f3b | 0x001f3c | 0x00215c
        | 0x00215d | 0x8cec4b | 0x9cb6d0 => Some(Vendor::Intel),
        0x0c1daf | 0x14f65a | 0x185936 | 0x2082c0 | 0x286c07 | 0x3480b3 | 0x50642b | 0x584498
        | 0x640980 | 0x64b473 | 0x7811dc | 0x8cbebe | 0x94fbb2 | 0x98fae3 | 0xa086c6 | 0xf48b32
        | 0xf8a45f | 0x2cdb07 | 0x34ce00 | 0x4c49e3 | 0x58a2b5 | 0x68dfdd | 0x6ce873 | 0x742344
        | 0x7802f8 | 0x9c99a0 | 0xacc1ee | 0xb0e235 | 0xd4970b | 0xe446da => Some(Vendor::Xiaomi),
        0x001882 | 0x00259e | 0x04021f | 0x0c37dc | 0x101b54 | 0x149d09 | 0x18c58a | 0x1c8e5c
        | 0x244c07 | 0x2cab00 | 0x30d17e | 0x342912 | 0x404d8e | 0x4c1fcc | 0x54511b | 0x60de44
        | 0x70723c | 0x80d09b | 0x84a9c4 | 0x94049c | 0x9c741a | 0xa0086f | 0xace215 | 0xb41513
        | 0xc4ff1f | 0xcc53b5 | 0xd46e5c | 0xdc729b | 0xe0191d | 0xf4c714 => Some(Vendor::Huawei),
        0x00014a | 0x00041f | 0x000d4b | 0x0013a9 | 0x00194e | 0x001a80 | 0x001d0d | 0x280dfc
        | 0x3017c8 | 0x3c01ef | 0x40b0fa | 0x544249 | 0x702dd4 | 0x88c9e8 | 0x9cad97 | 0xa0e453
        | 0xb05cda | 0xc4438f | 0xf87b20 | 0xd8d43c | 0xe0ae5e | 0xf0bf97 => Some(Vendor::Sony),
        0x001e75 | 0x001f6b | 0x002483 | 0x0026e2 | 0x04b167 | 0x10683f | 0x14b484 | 0x1c08c1
        | 0x1c994c | 0x283f69 | 0x301aa3 | 0x404e36 | 0x485929 | 0x4cbd8f | 0x505527 | 0x54fcf3
        | 0x5c70a3 | 0x6021c0 | 0x7438b7 | 0x7c66ef | 0x88c9d0 | 0x90e6ba | 0xa816d0 | 0xacafb9
        | 0xbcf5ac | 0xc80873 | 0xd013fd | 0xd81399 | 0xe888d3 => Some(Vendor::Lg),
        0x00016c | 0x00e04c | 0x08beac | 0x309c23 | 0x40b034 | 0x44c306 | 0x525400 | 0x6c4b90
        | 0x8c1645 | 0xe0d55e => Some(Vendor::Realtek),
        _ => None,
    }
}

} // verus!
