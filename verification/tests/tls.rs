use zestors::tls::{node_from_names, node_of, node_of_pem, TlsError};
use zestors::names::NodeName;

const PEM_ONE_NAME: &str = "\
-----BEGIN CERTIFICATE-----\n\
MIIBhTCCASygAwIBAgIUVcH37GRSwLKgJLoOs5Ai1LoAVgkwCgYIKoZIzj0EAwIw\n\
DzENMAsGA1UEAwwEdGVzdDAeFw0yNjExMTgwMjE2NTBaFw0zNjExMTUwMjE2NTBa\n\
MA8xDTALBgNVBAMMBHRlc3QwWTATBgcqhkjOPQIBBggqhkjOPQMBBwNCAAQalpHY\n\
eojghdVzV1gizIVsCke2DrINWNH/FGibRCbF1PrKl+4/Nkwa+F9wMiXNf3W/l936\n\
Mu2IeoEwfvz9T/6Uo2YwZDAdBgNVHQ4EFgQU/uejan84FL6mb4V/5u6X0FQevgkw\n\
HwYDVR0jBBgwFoAU/uejan84FL6mb4V/5u6X0FQevgkwDwYDVR0TAQH/BAUwAwEB\n\
/zARBgNVHREECjAIggZub2RlLWEwCgYIKoZIzj0EAwIDRwAwRAIgY/UW7mEa/gxa\n\
TNf3I7QyDQaGPA1YhvNla1RFWk4NsiECIEQiZ55WQQPfB+bUMTTmD3Mov+XEIDM8\n\
f9OxS161QIqO\n\
-----END CERTIFICATE-----\n\
";

const PEM_TWO_NAMES: &str = "\
-----BEGIN CERTIFICATE-----\n\
MIIBjTCCATSgAwIBAgIUEUQMqLxlAGm8zjH27mENw4xKxnIwCgYIKoZIzj0EAwIw\n\
DzENMAsGA1UEAwwEdGVzdDAeFw0yNjExMTgwMjE2NTBaFw0zNjExMTUwMjE2NTBa\n\
MA8xDTALBgNVBAMMBHRlc3QwWTATBgcqhkjOPQIBBggqhkjOPQMBBwNCAATltYTR\n\
DBd+4C09lOhS8mhYdeZI1NtylMYzD9st3hcYM66hV5xAHroynzv18ioeagQcg7FK\n\
v2/XupzznC9M/MAto24wbDAdBgNVHQ4EFgQU9YY1x8TdOzsjSM8RpvaOvIVjInow\n\
HwYDVR0jBBgwFoAU9YY1x8TdOzsjSM8RpvaOvIVjInowDwYDVR0TAQH/BAUwAwEB\n\
/zAZBgNVHREEEjAQggZub2RlLWGCBm5vZGUtYjAKBggqhkjOPQQDAgNHADBEAiAe\n\
Ae4zHUiGquXVgXiX0HheS6p7B1MO6PqoPfpwIGyy7QIgTmLe75VkVIyN76/Q1WGG\n\
8l37h01ezzRl8Pm4zPAiEN4=\n\
-----END CERTIFICATE-----\n\
";

const PEM_NO_NAMES: &str = "\
-----BEGIN CERTIFICATE-----\n\
MIIBczCCARmgAwIBAgIUbCYk/NVpzMwJ2Fvg56gEA5UBCLwwCgYIKoZIzj0EAwIw\n\
DzENMAsGA1UEAwwEdGVzdDAeFw0yNjExMTgwMjE2NTBaFw0zNjExMTUwMjE2NTBa\n\
MA8xDTALBgNVBAMMBHRlc3QwWTATBgcqhkjOPQIBBggqhkjOPQMBBwNCAART/VH8\n\
C8A1rW7CAfnnvUkeqnqiG0cLt0Te8cyBFZtfXa363AXXsgAfCqOg/W21X7juU/k7\n\
aWuShsXdpdfuPcgPo1MwUTAdBgNVHQ4EFgQUyUPrdoqs/0NYB7SnTE36hSUR2PAw\n\
HwYDVR0jBBgwFoAUyUPrdoqs/0NYB7SnTE36hSUR2PAwDwYDVR0TAQH/BAUwAwEB\n\
/zAKBggqhkjOPQQDAgNIADBFAiEAw/gW2iBLJrUgsomxvkrs4GDCHwezjPAYPJbT\n\
+pLJNMcCICmgyAsBfmS07viBCw3LRfY8Ts6AFq2dstUtd5JbP8Nn\n\
-----END CERTIFICATE-----\n\
";

const CERT_ONE_NAME: [u8; 393] = [
    0x30, 0x82, 0x01, 0x85, 0x30, 0x82, 0x01, 0x2c, 0xa0, 0x03, 0x02, 0x01, 0x02, 0x02, 0x14, 0x55,
    0xc1, 0xf7, 0xec, 0x64, 0x52, 0xc0, 0xb2, 0xa0, 0x24, 0xba, 0x0e, 0xb3, 0x90, 0x22, 0xd4, 0xba,
    0x00, 0x56, 0x09, 0x30, 0x0a, 0x06, 0x08, 0x2a, 0x86, 0x48, 0xce, 0x3d, 0x04, 0x03, 0x02, 0x30,
    0x0f, 0x31, 0x0d, 0x30, 0x0b, 0x06, 0x03, 0x55, 0x04, 0x03, 0x0c, 0x04, 0x74, 0x65, 0x73, 0x74,
    0x30, 0x1e, 0x17, 0x0d, 0x32, 0x36, 0x31, 0x31, 0x31, 0x38, 0x30, 0x32, 0x31, 0x36, 0x35, 0x30,
    0x5a, 0x17, 0x0d, 0x33, 0x36, 0x31, 0x31, 0x31, 0x35, 0x30, 0x32, 0x31, 0x36, 0x35, 0x30, 0x5a,
    0x30, 0x0f, 0x31, 0x0d, 0x30, 0x0b, 0x06, 0x03, 0x55, 0x04, 0x03, 0x0c, 0x04, 0x74, 0x65, 0x73,
    0x74, 0x30, 0x59, 0x30, 0x13, 0x06, 0x07, 0x2a, 0x86, 0x48, 0xce, 0x3d, 0x02, 0x01, 0x06, 0x08,
    0x2a, 0x86, 0x48, 0xce, 0x3d, 0x03, 0x01, 0x07, 0x03, 0x42, 0x00, 0x04, 0x1a, 0x96, 0x91, 0xd8,
    0x7a, 0x88, 0xe0, 0x85, 0xd5, 0x73, 0x57, 0x58, 0x22, 0xcc, 0x85, 0x6c, 0x0a, 0x47, 0xb6, 0x0e,
    0xb2, 0x0d, 0x58, 0xd1, 0xff, 0x14, 0x68, 0x9b, 0x44, 0x26, 0xc5, 0xd4, 0xfa, 0xca, 0x97, 0xee,
    0x3f, 0x36, 0x4c, 0x1a, 0xf8, 0x5f, 0x70, 0x32, 0x25, 0xcd, 0x7f, 0x75, 0xbf, 0x97, 0xdd, 0xfa,
    0x32, 0xed, 0x88, 0x7a, 0x81, 0x30, 0x7e, 0xfc, 0xfd, 0x4f, 0xfe, 0x94, 0xa3, 0x66, 0x30, 0x64,
    0x30, 0x1d, 0x06, 0x03, 0x55, 0x1d, 0x0e, 0x04, 0x16, 0x04, 0x14, 0xfe, 0xe7, 0xa3, 0x6a, 0x7f,
    0x38, 0x14, 0xbe, 0xa6, 0x6f, 0x85, 0x7f, 0xe6, 0xee, 0x97, 0xd0, 0x54, 0x1e, 0xbe, 0x09, 0x30,
    0x1f, 0x06, 0x03, 0x55, 0x1d, 0x23, 0x04, 0x18, 0x30, 0x16, 0x80, 0x14, 0xfe, 0xe7, 0xa3, 0x6a,
    0x7f, 0x38, 0x14, 0xbe, 0xa6, 0x6f, 0x85, 0x7f, 0xe6, 0xee, 0x97, 0xd0, 0x54, 0x1e, 0xbe, 0x09,
    0x30, 0x0f, 0x06, 0x03, 0x55, 0x1d, 0x13, 0x01, 0x01, 0xff, 0x04, 0x05, 0x30, 0x03, 0x01, 0x01,
    0xff, 0x30, 0x11, 0x06, 0x03, 0x55, 0x1d, 0x11, 0x04, 0x0a, 0x30, 0x08, 0x82, 0x06, 0x6e, 0x6f,
    0x64, 0x65, 0x2d, 0x61, 0x30, 0x0a, 0x06, 0x08, 0x2a, 0x86, 0x48, 0xce, 0x3d, 0x04, 0x03, 0x02,
    0x03, 0x47, 0x00, 0x30, 0x44, 0x02, 0x20, 0x63, 0xf5, 0x16, 0xee, 0x61, 0x1a, 0xfe, 0x0c, 0x5a,
    0x4c, 0xd7, 0xf7, 0x23, 0xb4, 0x32, 0x0d, 0x06, 0x86, 0x3c, 0x0d, 0x58, 0x86, 0xf3, 0x65, 0x6b,
    0x54, 0x45, 0x5a, 0x4e, 0x0d, 0xb2, 0x21, 0x02, 0x20, 0x44, 0x22, 0x67, 0x9e, 0x56, 0x41, 0x03,
    0xdf, 0x07, 0xe6, 0xd4, 0x31, 0x34, 0xe6, 0x0f, 0x73, 0x28, 0xbf, 0xe5, 0xc4, 0x20, 0x33, 0x3c,
    0x7f, 0xd3, 0xb1, 0x4b, 0x5e, 0xb5, 0x40, 0x8a, 0x8e,
];

const CERT_TWO_NAMES: [u8; 401] = [
    0x30, 0x82, 0x01, 0x8d, 0x30, 0x82, 0x01, 0x34, 0xa0, 0x03, 0x02, 0x01, 0x02, 0x02, 0x14, 0x11,
    0x44, 0x0c, 0xa8, 0xbc, 0x65, 0x00, 0x69, 0xbc, 0xce, 0x31, 0xf6, 0xee, 0x61, 0x0d, 0xc3, 0x8c,
    0x4a, 0xc6, 0x72, 0x30, 0x0a, 0x06, 0x08, 0x2a, 0x86, 0x48, 0xce, 0x3d, 0x04, 0x03, 0x02, 0x30,
    0x0f, 0x31, 0x0d, 0x30, 0x0b, 0x06, 0x03, 0x55, 0x04, 0x03, 0x0c, 0x04, 0x74, 0x65, 0x73, 0x74,
    0x30, 0x1e, 0x17, 0x0d, 0x32, 0x36, 0x31, 0x31, 0x31, 0x38, 0x30, 0x32, 0x31, 0x36, 0x35, 0x30,
    0x5a, 0x17, 0x0d, 0x33, 0x36, 0x31, 0x31, 0x31, 0x35, 0x30, 0x32, 0x31, 0x36, 0x35, 0x30, 0x5a,
    0x30, 0x0f, 0x31, 0x0d, 0x30, 0x0b, 0x06, 0x03, 0x55, 0x04, 0x03, 0x0c, 0x04, 0x74, 0x65, 0x73,
    0x74, 0x30, 0x59, 0x30, 0x13, 0x06, 0x07, 0x2a, 0x86, 0x48, 0xce, 0x3d, 0x02, 0x01, 0x06, 0x08,
    0x2a, 0x86, 0x48, 0xce, 0x3d, 0x03, 0x01, 0x07, 0x03, 0x42, 0x00, 0x04, 0xe5, 0xb5, 0x84, 0xd1,
    0x0c, 0x17, 0x7e, 0xe0, 0x2d, 0x3d, 0x94, 0xe8, 0x52, 0xf2, 0x68, 0x58, 0x75, 0xe6, 0x48, 0xd4,
    0xdb, 0x72, 0x94, 0xc6, 0x33, 0x0f, 0xdb, 0x2d, 0xde, 0x17, 0x18, 0x33, 0xae, 0xa1, 0x57, 0x9c,
    0x40, 0x1e, 0xba, 0x32, 0x9f, 0x3b, 0xf5, 0xf2, 0x2a, 0x1e, 0x6a, 0x04, 0x1c, 0x83, 0xb1, 0x4a,
    0xbf, 0x6f, 0xd7, 0xba, 0x9c, 0xf3, 0x9c, 0x2f, 0x4c, 0xfc, 0xc0, 0x2d, 0xa3, 0x6e, 0x30, 0x6c,
    0x30, 0x1d, 0x06, 0x03, 0x55, 0x1d, 0x0e, 0x04, 0x16, 0x04, 0x14, 0xf5, 0x86, 0x35, 0xc7, 0xc4,
    0xdd, 0x3b, 0x3b, 0x23, 0x48, 0xcf, 0x11, 0xa6, 0xf6, 0x8e, 0xbc, 0x85, 0x63, 0x22, 0x7a, 0x30,
    0x1f, 0x06, 0x03, 0x55, 0x1d, 0x23, 0x04, 0x18, 0x30, 0x16, 0x80, 0x14, 0xf5, 0x86, 0x35, 0xc7,
    0xc4, 0xdd, 0x3b, 0x3b, 0x23, 0x48, 0xcf, 0x11, 0xa6, 0xf6, 0x8e, 0xbc, 0x85, 0x63, 0x22, 0x7a,
    0x30, 0x0f, 0x06, 0x03, 0x55, 0x1d, 0x13, 0x01, 0x01, 0xff, 0x04, 0x05, 0x30, 0x03, 0x01, 0x01,
    0xff, 0x30, 0x19, 0x06, 0x03, 0x55, 0x1d, 0x11, 0x04, 0x12, 0x30, 0x10, 0x82, 0x06, 0x6e, 0x6f,
    0x64, 0x65, 0x2d, 0x61, 0x82, 0x06, 0x6e, 0x6f, 0x64, 0x65, 0x2d, 0x62, 0x30, 0x0a, 0x06, 0x08,
    0x2a, 0x86, 0x48, 0xce, 0x3d, 0x04, 0x03, 0x02, 0x03, 0x47, 0x00, 0x30, 0x44, 0x02, 0x20, 0x1e,
    0x01, 0xee, 0x33, 0x1d, 0x48, 0x86, 0xaa, 0xe5, 0xd5, 0x81, 0x78, 0x97, 0xd0, 0x78, 0x5e, 0x4b,
    0xaa, 0x7b, 0x07, 0x53, 0x0e, 0xe8, 0xfa, 0xa8, 0x3d, 0xfa, 0x70, 0x20, 0x6c, 0xb2, 0xed, 0x02,
    0x20, 0x4e, 0x62, 0xde, 0xef, 0x95, 0x64, 0x54, 0x8c, 0x8d, 0xef, 0xaf, 0xd0, 0xd5, 0x61, 0x86,
    0xf2, 0x5d, 0xfb, 0x87, 0x4d, 0x5e, 0xcf, 0x34, 0x65, 0xf0, 0xf9, 0xb8, 0xcc, 0xf0, 0x22, 0x10,
    0xde,
];

const CERT_NO_NAMES: [u8; 375] = [
    0x30, 0x82, 0x01, 0x73, 0x30, 0x82, 0x01, 0x19, 0xa0, 0x03, 0x02, 0x01, 0x02, 0x02, 0x14, 0x6c,
    0x26, 0x24, 0xfc, 0xd5, 0x69, 0xcc, 0xcc, 0x09, 0xd8, 0x5b, 0xe0, 0xe7, 0xa8, 0x04, 0x03, 0x95,
    0x01, 0x08, 0xbc, 0x30, 0x0a, 0x06, 0x08, 0x2a, 0x86, 0x48, 0xce, 0x3d, 0x04, 0x03, 0x02, 0x30,
    0x0f, 0x31, 0x0d, 0x30, 0x0b, 0x06, 0x03, 0x55, 0x04, 0x03, 0x0c, 0x04, 0x74, 0x65, 0x73, 0x74,
    0x30, 0x1e, 0x17, 0x0d, 0x32, 0x36, 0x31, 0x31, 0x31, 0x38, 0x30, 0x32, 0x31, 0x36, 0x35, 0x30,
    0x5a, 0x17, 0x0d, 0x33, 0x36, 0x31, 0x31, 0x31, 0x35, 0x30, 0x32, 0x31, 0x36, 0x35, 0x30, 0x5a,
    0x30, 0x0f, 0x31, 0x0d, 0x30, 0x0b, 0x06, 0x03, 0x55, 0x04, 0x03, 0x0c, 0x04, 0x74, 0x65, 0x73,
    0x74, 0x30, 0x59, 0x30, 0x13, 0x06, 0x07, 0x2a, 0x86, 0x48, 0xce, 0x3d, 0x02, 0x01, 0x06, 0x08,
    0x2a, 0x86, 0x48, 0xce, 0x3d, 0x03, 0x01, 0x07, 0x03, 0x42, 0x00, 0x04, 0x53, 0xfd, 0x51, 0xfc,
    0x0b, 0xc0, 0x35, 0xad, 0x6e, 0xc2, 0x01, 0xf9, 0xe7, 0xbd, 0x49, 0x1e, 0xaa, 0x7a, 0xa2, 0x1b,
    0x47, 0x0b, 0xb7, 0x44, 0xde, 0xf1, 0xcc, 0x81, 0x15, 0x9b, 0x5f, 0x5d, 0xad, 0xfa, 0xdc, 0x05,
    0xd7, 0xb2, 0x00, 0x1f, 0x0a, 0xa3, 0xa0, 0xfd, 0x6d, 0xb5, 0x5f, 0xb8, 0xee, 0x53, 0xf9, 0x3b,
    0x69, 0x6b, 0x92, 0x86, 0xc5, 0xdd, 0xa5, 0xd7, 0xee, 0x3d, 0xc8, 0x0f, 0xa3, 0x53, 0x30, 0x51,
    0x30, 0x1d, 0x06, 0x03, 0x55, 0x1d, 0x0e, 0x04, 0x16, 0x04, 0x14, 0xc9, 0x43, 0xeb, 0x76, 0x8a,
    0xac, 0xff, 0x43, 0x58, 0x07, 0xb4, 0xa7, 0x4c, 0x4d, 0xfa, 0x85, 0x25, 0x11, 0xd8, 0xf0, 0x30,
    0x1f, 0x06, 0x03, 0x55, 0x1d, 0x23, 0x04, 0x18, 0x30, 0x16, 0x80, 0x14, 0xc9, 0x43, 0xeb, 0x76,
    0x8a, 0xac, 0xff, 0x43, 0x58, 0x07, 0xb4, 0xa7, 0x4c, 0x4d, 0xfa, 0x85, 0x25, 0x11, 0xd8, 0xf0,
    0x30, 0x0f, 0x06, 0x03, 0x55, 0x1d, 0x13, 0x01, 0x01, 0xff, 0x04, 0x05, 0x30, 0x03, 0x01, 0x01,
    0xff, 0x30, 0x0a, 0x06, 0x08, 0x2a, 0x86, 0x48, 0xce, 0x3d, 0x04, 0x03, 0x02, 0x03, 0x48, 0x00,
    0x30, 0x45, 0x02, 0x21, 0x00, 0xc3, 0xf8, 0x16, 0xda, 0x20, 0x4b, 0x26, 0xb5, 0x20, 0xb2, 0x89,
    0xb1, 0xbe, 0x4a, 0xec, 0xe0, 0x60, 0xc2, 0x1f, 0x07, 0xb3, 0x8c, 0xf0, 0x18, 0x3c, 0x96, 0xd3,
    0xfa, 0x92, 0xc9, 0x34, 0xc7, 0x02, 0x20, 0x29, 0xa0, 0xc8, 0x0b, 0x01, 0x7e, 0x64, 0xb4, 0xee,
    0xf8, 0x81, 0x0b, 0x0d, 0xcb, 0x45, 0xf6, 0x3c, 0x4e, 0xce, 0x80, 0x16, 0xad, 0x9d, 0xb2, 0xd5,
    0x2d, 0x77, 0x92, 0x5b, 0x3f, 0xc3, 0x67,
];

#[test]
fn a_certificate_with_one_name_names_the_node() {
    assert_eq!(node_of_pem(PEM_ONE_NAME.as_bytes()).unwrap().as_str(), "node-a");
    assert_eq!(node_of(&CERT_ONE_NAME).unwrap(), NodeName::new("node-a"));
}

#[test]
fn a_certificate_must_have_exactly_one_name() {
    assert_eq!(node_of_pem(PEM_TWO_NAMES.as_bytes()), Err(TlsError::CertificateNames(2)));
    assert_eq!(node_of_pem(PEM_NO_NAMES.as_bytes()), Err(TlsError::CertificateNames(0)));
    assert_eq!(node_of(&CERT_TWO_NAMES), Err(TlsError::CertificateNames(2)));
    assert_eq!(node_of(&CERT_NO_NAMES), Err(TlsError::CertificateNames(0)));
}

#[test]
fn what_is_not_a_certificate_is_refused() {
    assert!(matches!(node_of(b"not a certificate"), Err(TlsError::Certificate(_))));
    assert!(matches!(node_of(&CERT_ONE_NAME[..100]), Err(TlsError::Certificate(_))));
}

#[test]
fn names_are_counted_when_there_are_not_exactly_one() {
    assert_eq!(
        node_from_names(vec!["a".to_string(), "b".to_string(), "c".to_string()]),
        Err(TlsError::CertificateNames(3))
    );
    assert_eq!(node_from_names(vec!["a".to_string()]), Ok(NodeName::new("a")));
}

#[test]
fn a_certificate_chain_in_pem_names_the_node_of_its_first_certificate() {
    assert_eq!(node_of_pem(PEM_ONE_NAME.as_bytes()), Ok(NodeName::new("node-a")));
    let chain = format!("{PEM_ONE_NAME}{PEM_TWO_NAMES}");
    assert_eq!(node_of_pem(chain.as_bytes()), Ok(NodeName::new("node-a")));
    let chain = format!("{PEM_TWO_NAMES}{PEM_ONE_NAME}");
    assert_eq!(node_of_pem(chain.as_bytes()), Err(TlsError::CertificateNames(2)));
    assert_eq!(node_of_pem(PEM_NO_NAMES.as_bytes()), Err(TlsError::CertificateNames(0)));
}

#[test]
fn a_pem_without_certificates_or_with_a_broken_one_is_refused() {
    assert_eq!(node_of_pem(b"no pem here"), Err(TlsError::NoCertificates));
    let cut = &PEM_ONE_NAME[..PEM_ONE_NAME.len() - 30];
    assert!(matches!(node_of_pem(cut.as_bytes()), Err(TlsError::Pem(_))));
}
