use ublox_gps_tec::frame::{find_rxm_raw, rxm_checksum, split_ubx};
use ublox_gps_tec::rawx::{UbxFormat, UbxRxmRawx};

const PAYLOAD1: [u8; 888] = [
    0xB5, 0x62, 0x02, 0x15, 0x70, 0x03, 0x17, 0xD9, 0xCE, 0xF7, 0x3F, 0xB4,
    0x14, 0x41, 0x1E, 0x09, 0x12, 0x1B, 0x01, 0x01, 0xE1, 0xD8, 0x60, 0xF4,
    0x00, 0xDD, 0x8F, 0x1E, 0x71, 0x41, 0xB8, 0xA3, 0x17, 0x26, 0xA2, 0x7D,
    0x96, 0x41, 0x02, 0x47, 0xB5, 0x44, 0x00, 0x10, 0x00, 0x00, 0xF4, 0xFB,
    0x2A, 0x04, 0x02, 0x07, 0x0F, 0x00, 0x31, 0x15, 0x50, 0x98, 0x60, 0x99,
    0x81, 0x41, 0x4E, 0x66, 0xA1, 0xC6, 0xFA, 0x1E, 0xA7, 0x41, 0xCF, 0x7C,
    0x32, 0xC3, 0x01, 0x83, 0x00, 0x00, 0xF4, 0xFB, 0x29, 0x04, 0x02, 0x07,
    0x07, 0x00, 0x2D, 0x48, 0x60, 0x42, 0x01, 0xB6, 0x77, 0x41, 0x38, 0x33,
    0xC9, 0x5B, 0x04, 0xDE, 0x9E, 0x41, 0xDE, 0x33, 0x64, 0xC5, 0x03, 0x29,
    0x00, 0x00, 0xF4, 0xFB, 0x1E, 0x06, 0x06, 0x08, 0x07, 0x00, 0xE4, 0x9B,
    0x46, 0x4C, 0x2F, 0x16, 0x73, 0x41, 0x27, 0xD2, 0x2A, 0x5A, 0xE9, 0xD8,
    0x98, 0x41, 0x64, 0xC0, 0x50, 0x44, 0x03, 0x25, 0x00, 0x00, 0x00, 0x00,
    0x12, 0x09, 0x0F, 0x0C, 0x01, 0x00, 0x39, 0xA1, 0x82, 0xCA, 0x7B, 0x05,
    0x77, 0x41, 0xC0, 0xC1, 0x86, 0x9D, 0x3A, 0xF8, 0x9D, 0x41, 0x29, 0x31,
    0x2C, 0x45, 0x03, 0x1C, 0x00, 0x00, 0xF4, 0xFB, 0x1E, 0x06, 0x07, 0x09,
    0x07, 0x00, 0xE8, 0xAD, 0x37, 0x53, 0xBF, 0x29, 0x74, 0x41, 0x12, 0x56,
    0x6D, 0xEC, 0xA4, 0x3F, 0x9A, 0x41, 0x73, 0x2B, 0x2E, 0xC5, 0x03, 0x20,
    0x00, 0x00, 0xF4, 0xFB, 0x28, 0x04, 0x02, 0x07, 0x0F, 0x00, 0xB2, 0x29,
    0x59, 0x17, 0x31, 0x01, 0x73, 0x41, 0x61, 0x94, 0x1B, 0x62, 0x64, 0x5A,
    0x99, 0x41, 0x7D, 0x2F, 0x8D, 0xC5, 0x06, 0x02, 0x00, 0x03, 0xF4, 0xFB,
    0x23, 0x06, 0x04, 0x08, 0x0F, 0x00, 0x6F, 0x50, 0x69, 0x78, 0x5E, 0x5D,
    0x70, 0x41, 0x04, 0xDE, 0x49, 0xFC, 0x80, 0xE6, 0x95, 0x41, 0xDF, 0xC5,
    0xBB, 0xC4, 0x06, 0x03, 0x00, 0x0C, 0xF4, 0xFB, 0x27, 0x06, 0x02, 0x07,
    0x07, 0x00, 0x8D, 0x99, 0xB5, 0xDE, 0x15, 0x97, 0x74, 0x41, 0xA1, 0xE5,
    0x06, 0x2A, 0xF1, 0x0C, 0x9B, 0x41, 0xD7, 0x20, 0x78, 0x44, 0x02, 0x18,
    0x00, 0x00, 0xF4, 0xFB, 0x27, 0x04, 0x02, 0x07, 0x07, 0x00, 0x01, 0xAA,
    0x0A, 0xBA, 0xD4, 0xEC, 0x75, 0x41, 0xF7, 0xA6, 0x15, 0x70, 0xE7, 0xCD,
    0x9C, 0x41, 0xFE, 0x5A, 0x26, 0xC5, 0x02, 0x06, 0x00, 0x00, 0xF4, 0xFB,
    0x1F, 0x06, 0x06, 0x08, 0x07, 0x00, 0xF7, 0x37, 0x37, 0xF7, 0x05, 0xD6,
    0x71, 0x41, 0x1E, 0xEE, 0x35, 0x9D, 0xE0, 0xC4, 0x97, 0x41, 0xFF, 0x0D,
    0x02, 0x45, 0x06, 0x0E, 0x00, 0x00, 0xF4, 0xFB, 0x26, 0x06, 0x03, 0x07,
    0x07, 0x00, 0xF3, 0xDB, 0x58, 0xE2, 0x8C, 0xF7, 0x70, 0x41, 0xF6, 0xB2,
    0xA2, 0xB4, 0x60, 0x4A, 0x96, 0x41, 0x1A, 0x41, 0x98, 0xC4, 0x00, 0x1A,
    0x00, 0x00, 0x00, 0x00, 0x19, 0x09, 0x0F, 0x0A, 0x01, 0x00, 0xE8, 0x35,
    0x29, 0xF8, 0x67, 0xD8, 0x77, 0x41, 0x17, 0x56, 0xED, 0x56, 0xB8, 0x53,
    0x9F, 0x41, 0xE0, 0xE7, 0x1F, 0x45, 0x02, 0x19, 0x00, 0x00, 0xF4, 0xFB,
    0x21, 0x06, 0x05, 0x08, 0x07, 0x00, 0x26, 0x60, 0x54, 0x6E, 0xE2, 0x9A,
    0x74, 0x41, 0x29, 0x8F, 0x06, 0x9B, 0xEE, 0x11, 0x9B, 0x41, 0x9B, 0x56,
    0x6A, 0x45, 0x00, 0x1B, 0x00, 0x00, 0xF4, 0xFB, 0x27, 0x04, 0x02, 0x07,
    0x07, 0x00, 0x7B, 0x46, 0xEC, 0x9E, 0x14, 0xB5, 0x74, 0x41, 0x00, 0x80,
    0xE6, 0x31, 0x57, 0x34, 0x9B, 0x41, 0xDC, 0x67, 0xDB, 0xC4, 0x02, 0x09,
    0x00, 0x00, 0xF4, 0xFB, 0x25, 0x04, 0x02, 0x07, 0x07, 0x00, 0xE0, 0x44,
    0x3D, 0x1B, 0xAD, 0x0D, 0x76, 0x41, 0x98, 0x37, 0x5B, 0x13, 0x0F, 0xF9,
    0x9C, 0x41, 0x58, 0xC5, 0x74, 0xC5, 0x00, 0x20, 0x00, 0x00, 0x54, 0xFB,
    0x19, 0x08, 0x0A, 0x08, 0x07, 0x00, 0x6D, 0xAB, 0xF6, 0x90, 0xF0, 0x95,
    0x73, 0x41, 0x7D, 0x98, 0x0B, 0x65, 0x1B, 0xBB, 0x99, 0x41, 0x8D, 0x99,
    0x1E, 0xC5, 0x00, 0x03, 0x00, 0x00, 0xF4, 0xFB, 0x24, 0x05, 0x03, 0x08,
    0x07, 0x00, 0x42, 0x70, 0xDF, 0xDC, 0xD4, 0xEC, 0x75, 0x41, 0x60, 0xAC,
    0x94, 0x59, 0x22, 0x12, 0x96, 0x41, 0xCE, 0xFE, 0xFE, 0xC4, 0x02, 0x06,
    0x06, 0x00, 0xF4, 0xFB, 0x23, 0x05, 0x03, 0x08, 0x07, 0x00, 0x86, 0x12,
    0x04, 0xF4, 0x15, 0x97, 0x74, 0x41, 0x76, 0x7E, 0x4F, 0x59, 0x20, 0xBA,
    0x94, 0x41, 0xB0, 0x19, 0x3E, 0x44, 0x02, 0x18, 0x06, 0x00, 0xF4, 0xFB,
    0x26, 0x04, 0x03, 0x07, 0x07, 0x00, 0x40, 0x9E, 0x2B, 0xE3, 0x4F, 0x0E,
    0x78, 0x41, 0xC8, 0xB1, 0xAB, 0xE3, 0x3C, 0x37, 0x98, 0x41, 0xAE, 0x3A,
    0x15, 0xC5, 0x02, 0x04, 0x06, 0x00, 0xF4, 0xFB, 0x22, 0x05, 0x04, 0x08,
    0x07, 0x00, 0x7F, 0x4F, 0xDB, 0xB5, 0x14, 0xB5, 0x74, 0x41, 0xE8, 0xD1,
    0xF4, 0x58, 0x50, 0xD8, 0x94, 0x41, 0xCC, 0x27, 0xA8, 0xC4, 0x02, 0x09,
    0x06, 0x00, 0xF4, 0xFB, 0x22, 0x05, 0x03, 0x08, 0x07, 0x00, 0x53, 0xB2,
    0x2B, 0xF0, 0x68, 0xD8, 0x77, 0x41, 0x7B, 0xF7, 0x23, 0x07, 0xFD, 0x00,
    0x98, 0x41, 0x36, 0x13, 0xF5, 0x44, 0x02, 0x19, 0x06, 0x00, 0xF4, 0xFB,
    0x22, 0x05, 0x03, 0x07, 0x07, 0x00, 0xFB, 0x1C, 0x99, 0x6E, 0xF0, 0x95,
    0x73, 0x41, 0xE6, 0xEE, 0x30, 0x86, 0xCF, 0x0C, 0x94, 0x41, 0x48, 0x20,
    0xF7, 0xC4, 0x00, 0x03, 0x03, 0x00, 0x00, 0x00, 0x1A, 0x08, 0x0F, 0x09,
    0x01, 0x00, 0x66, 0x53, 0x5C, 0x67, 0x31, 0x01, 0x73, 0x41, 0xDF, 0x4C,
    0xFD, 0x6C, 0x16, 0xB8, 0x93, 0x41, 0x05, 0xA0, 0x5B, 0xC5, 0x06, 0x02,
    0x02, 0x03, 0xF4, 0xFB, 0x25, 0x06, 0x03, 0x07, 0x0F, 0x00, 0x18, 0xF8,
    0xB1, 0xDA, 0xE2, 0x9A, 0x74, 0x41, 0xB8, 0x2B, 0xFA, 0xB6, 0xF3, 0x17,
    0x95, 0x41, 0x32, 0x94, 0x36, 0x45, 0x00, 0x1B, 0x03, 0x00, 0xF4, 0xFB,
    0x22, 0x07, 0x04, 0x08, 0x07, 0x00, 0x23, 0xBC, 0xD2, 0x64, 0x5E, 0x5D,
    0x70, 0x41, 0xCA, 0x24, 0x51, 0x0E, 0x9D, 0x08, 0x91, 0x41, 0xB3, 0x06,
    0x92, 0xC4, 0x06, 0x03, 0x02, 0x0C, 0xF4, 0xFB, 0x1F, 0x07, 0x06, 0x09,
    0x07, 0x00, 0xD8, 0xAE, 0x6E, 0x85, 0x06, 0xD6, 0x71, 0x41, 0x61, 0x06,
    0x48, 0x66, 0xAD, 0x7C, 0x92, 0x41, 0xC4, 0x56, 0xCA, 0x44, 0x06, 0x0E,
    0x02, 0x00, 0xD0, 0x98, 0x1B, 0x08, 0x08, 0x08, 0x07, 0x00, 0x21, 0xF2,
];

const PAYLOAD2: [u8; 952] = [
    0xB5, 0x62, 0x02, 0x15, 0xB0, 0x03, 0x17, 0xD9, 0xCE, 0xF7, 0x67, 0xA1,
    0x14, 0x41, 0x1E, 0x09, 0x12, 0x1D, 0x01, 0x01, 0xF1, 0x71, 0x29, 0x58,
    0x20, 0x10, 0x2E, 0x83, 0x71, 0x41, 0x3D, 0xFB, 0xB6, 0x02, 0xD2, 0x01,
    0x97, 0x41, 0x5C, 0x14, 0x05, 0x45, 0x00, 0x10, 0x00, 0x00, 0xF4, 0xFB,
    0x2F, 0x03, 0x01, 0x06, 0x0F, 0x00, 0xB4, 0x3E, 0x51, 0x35, 0x4C, 0x94,
    0x81, 0x41, 0xC1, 0xA7, 0x4A, 0x5A, 0x4E, 0x18, 0xA7, 0x41, 0xAF, 0x62,
    0x3A, 0xC3, 0x01, 0x83, 0x00, 0x00, 0xF4, 0xFB, 0x29, 0x04, 0x02, 0x06,
    0x07, 0x00, 0x16, 0x84, 0x7D, 0xCB, 0xA1, 0xE5, 0x76, 0x41, 0xB5, 0xE7,
    0x68, 0xAA, 0xC1, 0xCE, 0x9D, 0x41, 0xBE, 0x76, 0x67, 0xC5, 0x03, 0x29,
    0x00, 0x00, 0xF4, 0xFB, 0x23, 0x05, 0x04, 0x08, 0x07, 0x00, 0x70, 0xB4,
    0x66, 0x06, 0x94, 0x4E, 0x73, 0x41, 0x96, 0x98, 0x39, 0x69, 0x54, 0x22,
    0x99, 0x41, 0x82, 0x79, 0x90, 0x44, 0x03, 0x25, 0x00, 0x00, 0xF4, 0xFB,
    0x23, 0x05, 0x04, 0x08, 0x0F, 0x00, 0x13, 0x1B, 0xA8, 0xFA, 0xF9, 0x2A,
    0x74, 0x41, 0x6E, 0x8E, 0x54, 0x4B, 0x3E, 0x41, 0x9A, 0x41, 0x82, 0x0C,
    0x83, 0x44, 0x03, 0x14, 0x00, 0x00, 0x00, 0x00, 0x15, 0x09, 0x0F, 0x0C,
    0x01, 0x00, 0x1F, 0x7D, 0xAE, 0x57, 0x93, 0x08, 0x73, 0x41, 0x37, 0x49,
    0x5E, 0xE1, 0x31, 0xC7, 0x98, 0x41, 0xAC, 0xCC, 0xB7, 0xC4, 0x03, 0x17,
    0x00, 0x00, 0x00, 0x00, 0x14, 0x09, 0x0F, 0x0C, 0x01, 0x00, 0xD2, 0x3E,
    0xF4, 0x0A, 0x72, 0x99, 0x73, 0x41, 0x37, 0x38, 0x28, 0x63, 0xCA, 0x83,
    0x99, 0x41, 0x8C, 0xE5, 0x0F, 0xC5, 0x03, 0x20, 0x00, 0x00, 0xF4, 0xFB,
    0x2A, 0x03, 0x02, 0x06, 0x0F, 0x00, 0x51, 0x49, 0xA2, 0x95, 0x2F, 0x13,
    0x72, 0x41, 0xD5, 0xE4, 0x5C, 0x13, 0xE2, 0x1C, 0x98, 0x41, 0x5D, 0xE4,
    0x7E, 0xC5, 0x06, 0x02, 0x00, 0x03, 0xF4, 0xFB, 0x27, 0x05, 0x02, 0x07,
    0x0F, 0x00, 0x76, 0x93, 0xB7, 0xC0, 0x60, 0x28, 0x70, 0x41, 0xB1, 0xC4,
    0xC5, 0x32, 0x96, 0x9F, 0x95, 0x41, 0x10, 0xAE, 0xD3, 0xC3, 0x06, 0x03,
    0x00, 0x0C, 0xF4, 0xFB, 0x22, 0x06, 0x04, 0x08, 0x07, 0x00, 0xA8, 0xB4,
    0xB2, 0xDE, 0x9A, 0x63, 0x77, 0x41, 0x9A, 0x37, 0x7A, 0xD9, 0x44, 0xBA,
    0x9E, 0x41, 0x22, 0xA9, 0x39, 0xC5, 0x02, 0x04, 0x00, 0x00, 0xA4, 0xA1,
    0x1A, 0x08, 0x0A, 0x08, 0x07, 0x00, 0x01, 0x3C, 0x2B, 0xB7, 0x27, 0xDA,
    0x74, 0x41, 0x2B, 0x3F, 0x78, 0xED, 0x0D, 0x65, 0x9B, 0x41, 0x48, 0xC7,
    0xAE, 0x44, 0x02, 0x18, 0x00, 0x00, 0xF4, 0xFB, 0x2B, 0x04, 0x01, 0x05,
    0x07, 0x00, 0x1B, 0x15, 0x3F, 0x96, 0x26, 0x60, 0x75, 0x41, 0x67, 0xC6,
    0x44, 0xBD, 0x15, 0x15, 0x9C, 0x41, 0x66, 0x32, 0x13, 0xC5, 0x02, 0x06,
    0x00, 0x00, 0xF4, 0xFB, 0x23, 0x05, 0x03, 0x07, 0x07, 0x00, 0x87, 0x24,
    0x35, 0x7C, 0x07, 0x55, 0x72, 0x41, 0xEC, 0x80, 0x8E, 0xE9, 0x20, 0x6E,
    0x98, 0x41, 0xE3, 0x08, 0x1D, 0x45, 0x06, 0x0E, 0x00, 0x00, 0xF4, 0xFB,
    0x25, 0x06, 0x03, 0x07, 0x07, 0x00, 0x81, 0x1B, 0x1A, 0xF6, 0xAA, 0x6B,
    0x78, 0x41, 0x94, 0xBB, 0x1D, 0x65, 0x97, 0x0A, 0xA0, 0x41, 0xB9, 0x00,
    0x28, 0x45, 0x02, 0x19, 0x00, 0x00, 0xF4, 0xFB, 0x22, 0x06, 0x04, 0x08,
    0x07, 0x00, 0x4E, 0x9E, 0xE2, 0xA8, 0x2C, 0x6D, 0x75, 0x41, 0x99, 0xBF,
    0x0C, 0x93, 0x32, 0x26, 0x9C, 0x41, 0x04, 0x01, 0x69, 0x45, 0x00, 0x1B,
    0x00, 0x00, 0xF4, 0xFB, 0x23, 0x05, 0x04, 0x08, 0x07, 0x00, 0xB3, 0x86,
    0x5B, 0x17, 0xE7, 0x5E, 0x74, 0x41, 0xA5, 0xE8, 0x0D, 0xA5, 0x1F, 0xC3,
    0x9A, 0x41, 0xD2, 0x1B, 0xA5, 0xC4, 0x02, 0x09, 0x00, 0x00, 0xF4, 0xFB,
    0x21, 0x06, 0x05, 0x08, 0x07, 0x00, 0x66, 0x2F, 0xC6, 0xDD, 0x15, 0x35,
    0x75, 0x41, 0xDA, 0xC2, 0xED, 0x53, 0x82, 0xDC, 0x9B, 0x41, 0xF0, 0x61,
    0x6D, 0xC5, 0x00, 0x20, 0x00, 0x00, 0x00, 0x00, 0x19, 0x09, 0x0F, 0x0A,
    0x01, 0x00, 0xB0, 0xDB, 0xFF, 0x79, 0xAA, 0x17, 0x73, 0x41, 0x9A, 0x7F,
    0x7F, 0xBD, 0x36, 0x15, 0x99, 0x41, 0x74, 0x68, 0xF3, 0xC4, 0x00, 0x03,
    0x00, 0x00, 0xF4, 0xFB, 0x26, 0x05, 0x02, 0x07, 0x07, 0x00, 0x9E, 0xA0,
    0x6C, 0xA4, 0x26, 0x60, 0x75, 0x41, 0xE0, 0x79, 0xC0, 0x0C, 0x85, 0x84,
    0x95, 0x41, 0x1C, 0x8E, 0xE1, 0xC4, 0x02, 0x06, 0x06, 0x00, 0xF4, 0xFB,
    0x1E, 0x06, 0x06, 0x08, 0x07, 0x00, 0xB7, 0xDD, 0xF1, 0xBA, 0x27, 0xDA,
    0x74, 0x41, 0x09, 0xB0, 0xAA, 0x0E, 0xA4, 0xFD, 0x94, 0x41, 0xD4, 0xED,
    0x85, 0x44, 0x02, 0x18, 0x06, 0x00, 0xF4, 0xFB, 0x26, 0x04, 0x03, 0x07,
    0x07, 0x00, 0x10, 0xDB, 0x04, 0xCE, 0x9B, 0x63, 0x77, 0x41, 0x2E, 0x35,
    0xA4, 0xF1, 0x66, 0x8B, 0x97, 0x41, 0x94, 0x3E, 0x0E, 0xC5, 0x02, 0x04,
    0x06, 0x00, 0xF4, 0xFB, 0x20, 0x05, 0x06, 0x08, 0x07, 0x00, 0x0A, 0xBF,
    0x89, 0x2E, 0xE7, 0x5E, 0x74, 0x41, 0x85, 0x3C, 0x18, 0x31, 0x90, 0x81,
    0x94, 0x41, 0x08, 0x1F, 0x7D, 0xC4, 0x02, 0x09, 0x06, 0x00, 0xF4, 0xFB,
    0x1F, 0x06, 0x07, 0x08, 0x07, 0x00, 0x4D, 0x49, 0x22, 0x71, 0xA4, 0xE5,
    0x76, 0x41, 0x7E, 0xFC, 0x76, 0xE4, 0x99, 0x0C, 0x97, 0x41, 0xA0, 0x49,
    0x3B, 0xC5, 0x03, 0x29, 0x02, 0x00, 0x00, 0x00, 0x0B, 0x0A, 0x0F, 0x0C,
    0x01, 0x00, 0xDB, 0x96, 0x68, 0xEC, 0xAB, 0x6B, 0x78, 0x41, 0x7E, 0x92,
    0x01, 0xAA, 0x39, 0x95, 0x98, 0x41, 0x1C, 0xBB, 0x00, 0x45, 0x02, 0x19,
    0x06, 0x00, 0xF4, 0xFB, 0x21, 0x05, 0x04, 0x08, 0x07, 0x00, 0xCB, 0xF3,
    0x2A, 0x33, 0xAA, 0x17, 0x73, 0x41, 0x54, 0xC2, 0x78, 0x51, 0x8B, 0x8B,
    0x93, 0x41, 0xD6, 0xA2, 0xBD, 0xC4, 0x00, 0x03, 0x03, 0x00, 0xF4, 0xFB,
    0x1A, 0x08, 0x09, 0x08, 0x07, 0x00, 0x42, 0x3F, 0xAD, 0x2E, 0x17, 0x35,
    0x75, 0x41, 0x34, 0xF4, 0x01, 0xF5, 0xCD, 0xB5, 0x95, 0x41, 0xBF, 0x28,
    0x39, 0xC5, 0x00, 0x20, 0x03, 0x00, 0x00, 0x00, 0x16, 0x09, 0x0F, 0x0C,
    0x01, 0x00, 0xCE, 0x16, 0x70, 0xBF, 0x2F, 0x13, 0x72, 0x41, 0x6B, 0xBF,
    0x13, 0xCF, 0x21, 0xC1, 0x92, 0x41, 0xF3, 0x3B, 0x46, 0xC5, 0x06, 0x02,
    0x02, 0x03, 0xF4, 0xFB, 0x24, 0x06, 0x03, 0x07, 0x0F, 0x00, 0xD1, 0xAD,
    0xDA, 0x32, 0x2D, 0x6D, 0x75, 0x41, 0xE3, 0x11, 0x50, 0x0E, 0x39, 0xEF,
    0x95, 0x41, 0xD3, 0x91, 0x35, 0x45, 0x00, 0x1B, 0x03, 0x00, 0xF4, 0xFB,
    0x21, 0x06, 0x04, 0x08, 0x07, 0x00, 0x0E, 0x4F, 0x90, 0xF9, 0x07, 0x55,
    0x72, 0x41, 0x00, 0x6F, 0x46, 0x58, 0x51, 0x00, 0x93, 0x41, 0x2A, 0x32,
    0xF4, 0x44, 0x06, 0x0E, 0x02, 0x00, 0x5C, 0x9E, 0x20, 0x07, 0x05, 0x08,
    0x07, 0x00, 0xC7, 0x82,
];

fn mk_frame(class: u8, id: u8, payload: &[u8]) -> Vec<u8> {
    let mut body = vec![class, id, (payload.len() % 256) as u8, (payload.len() / 256) as u8];
    body.extend_from_slice(payload);
    let (ck_a, ck_b) = rxm_checksum(&body);
    let mut frame = vec![0xB5, 0x62];
    frame.extend_from_slice(&body);
    frame.push(ck_a);
    frame.push(ck_b);
    frame
}

#[test]
fn checksum_known_value() {
    // the Fletcher sum over 0x02 0x15 0x00 0x00 is (0x17, 0x47)
    let (a, b) = rxm_checksum(&[0x02, 0x15, 0x00, 0x00]);
    assert_eq!((a, b), (0x17, 0x47));
    assert_eq!(rxm_checksum(&[]), (0, 0));
}

#[test]
fn frame_round_trip() {
    let payload = [1u8, 2, 3, 4, 5, 0xB5, 0x62, 9];
    let frame = mk_frame(0x02, 0x15, &payload);
    let (msgs, residual) = split_ubx(frame.clone());
    assert_eq!(msgs.len(), 1);
    assert_eq!(msgs[0].class, 0x02);
    assert_eq!(msgs[0].id, 0x15);
    assert_eq!(msgs[0].payload, payload.to_vec());
    assert!(residual.is_empty());
}

#[test]
fn interleaved_frames_recovered_in_order() {
    let frame1 = mk_frame(0x02, 0x15, &[10, 20, 30]);
    let frame2 = mk_frame(0x02, 0x14, &[40, 50]);
    let text1 = b"NMEA\n".to_vec();
    let text2 = b"$GPGGA,123519,4807.038,N,01131.000,E,1,08,0.9,545.4,M,46.9,M,,*47\r\n"
        .to_vec();
    let mut buf = Vec::new();
    buf.extend_from_slice(&text1);
    buf.extend_from_slice(&frame1);
    buf.extend_from_slice(&text2);
    buf.extend_from_slice(&frame2);
    let (msgs, residual) = split_ubx(buf);
    assert_eq!(msgs.len(), 2);
    assert_eq!(msgs[0].payload, vec![10, 20, 30]);
    assert_eq!(msgs[1].payload, vec![40, 50]);
    let mut expect = text1.clone();
    expect.extend_from_slice(&text2);
    assert_eq!(residual, expect);
}

#[test]
fn corrupt_checksum_yields_no_frame() {
    let frame = mk_frame(0x02, 0x15, &[7, 7, 7, 7]);
    let n = frame.len();
    for pos in [n - 2, n - 1] {
        for delta in 1..=255u8 {
            let mut bad = frame.clone();
            bad[pos] = bad[pos].wrapping_add(delta);
            let (msgs, residual) = split_ubx(bad.clone());
            assert_eq!(msgs.len(), 0);
            assert_eq!(residual, bad);
        }
    }
}

#[test]
fn truncated_frame_stays_in_residual() {
    let frame = mk_frame(0x02, 0x15, &[1, 2, 3, 4, 5, 6]);
    for k in 1..=frame.len() {
        let cut = frame[..frame.len() - k].to_vec();
        let (msgs, residual) = split_ubx(cut.clone());
        assert_eq!(msgs.len(), 0, "cut {k} bytes");
        assert_eq!(residual, cut, "cut {k} bytes");
    }
}

#[test]
fn find_rxm_raw_reports_errors() {
    assert_eq!(find_rxm_raw(b"plain text"), Err("No UBX message found"));
    assert_eq!(find_rxm_raw(&[0xB5, 0x62, 0x02]), Err(
        "Insufficient data to get packet length"));
    assert_eq!(find_rxm_raw(&[0xB5, 0x62, 0x02, 0x15, 0x10, 0x00]), Err("Incomplete packet"));
    let mut frame = mk_frame(0x02, 0x15, &[9, 9]);
    let n = frame.len();
    frame[n - 1] ^= 0xFF;
    assert_eq!(find_rxm_raw(&frame), Err("Checksum mismatch"));
    let good = mk_frame(0x05, 0x01, &[]);
    assert_eq!(find_rxm_raw(&good), Ok((0, good.len(), 0x05, 0x01)));
}

#[test]
fn recorded_blobs_decode() {
    // Each blob holds one frame; the declared measurement counts are the
    // payload's count bytes, and every measurement names a known channel.
    let (msgs, residual) = split_ubx(PAYLOAD1.to_vec());
    assert_eq!(msgs.len(), 1);
    assert!(residual.is_empty());
    let rxm1 = UbxRxmRawx::from_message(msgs.into_iter().next().unwrap()).unwrap();
    let count1: usize = rxm1.meas.iter().map(|(_, v)| v.len()).sum();
    assert_eq!(count1, 27);

    let (msgs, residual) = split_ubx(PAYLOAD2.to_vec());
    assert_eq!(msgs.len(), 1);
    assert!(residual.is_empty());
    let rxm2 = UbxRxmRawx::from_message(msgs.into_iter().next().unwrap()).unwrap();
    let count2: usize = rxm2.meas.iter().map(|(_, v)| v.len()).sum();
    assert_eq!(count2, 29);

    // both records sit in the same GPS week, 1206 seconds apart
    assert_eq!(rxm1.timestamp.week, 2334);
    assert_eq!(rxm2.timestamp.week, 2334);
    let t1 = f64::from_bits(rxm1.timestamp.tow_bits);
    let t2 = f64::from_bits(rxm2.timestamp.tow_bits);
    assert_eq!(t1, 339215.992);
    assert_eq!((t1 - t2).abs(), 1206.0);
}

#[test]
fn test_rxm_checksum() {
    let payload = PAYLOAD1;
    let payload2 = PAYLOAD2;

    let (msg, _) = split_ubx(payload.to_vec());
    {
        for m in msg {
            if let Ok(rxm) = <UbxRxmRawx as UbxFormat>::from_message(m) {
                println!("Message: {:?}", rxm);
            }
        }
    }
    let (msg, _) = split_ubx(payload2.to_vec());
    {
        for m in msg {
            if let Ok(rxm) = <UbxRxmRawx as UbxFormat>::from_message(m) {
                println!("Message: {:?}", rxm);
            }
        }
    }

    match find_rxm_raw(&payload) {
        Ok(msg) => {
            println!("Message: {:?}", msg);
        }
        Err(err) => {
            println!("Error: {}", err);
        }
    }
    match find_rxm_raw(&payload2) {
        Ok(msg) => {
            println!("Message: {:?}", msg);
        }
        Err(err) => {
            println!("Error: {}", err);
        }
    }
}
