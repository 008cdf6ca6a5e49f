use sqint::format::format_python_string;
use sqint::FinderType;
use sqint::FloatValue;

fn double(f: f64) -> FinderType {
    FinderType::Float(FloatValue::new(&f.to_string(), &format!("{f:.1074}")).unwrap())
}

const CASES: &[(f64, &str, &str)] = &[
    (f64::INFINITY, "%f", "inf"),
    (f64::NEG_INFINITY, "%f", "-inf"),
    (f64::NAN, "%f", "nan"),
    (f64::INFINITY, "%F", "INF"),
    (f64::NEG_INFINITY, "%F", "-INF"),
    (f64::NAN, "%F", "NAN"),
    (f64::INFINITY, "%e", "inf"),
    (f64::NEG_INFINITY, "%e", "-inf"),
    (f64::NAN, "%e", "nan"),
    (f64::INFINITY, "%E", "INF"),
    (f64::NEG_INFINITY, "%E", "-INF"),
    (f64::NAN, "%E", "NAN"),
    (f64::INFINITY, "%g", "inf"),
    (f64::NEG_INFINITY, "%g", "-inf"),
    (f64::NAN, "%g", "nan"),
    (f64::INFINITY, "%G", "INF"),
    (f64::NEG_INFINITY, "%G", "-INF"),
    (f64::NAN, "%G", "NAN"),
    (f64::INFINITY, "%10.2f|", "       inf|"),
    (f64::NEG_INFINITY, "%10.2f|", "      -inf|"),
    (f64::NAN, "%10.2f|", "       nan|"),
    (f64::INFINITY, "%-8e|", "inf     |"),
    (f64::NEG_INFINITY, "%-8e|", "-inf    |"),
    (f64::NAN, "%-8e|", "nan     |"),
    (f64::INFINITY, "%+f", "+inf"),
    (f64::NEG_INFINITY, "%+f", "-inf"),
    (f64::NAN, "%+f", "+nan"),
    (f64::INFINITY, "%05f", "00inf"),
    (f64::NEG_INFINITY, "%05f", "-0inf"),
    (f64::NAN, "%05f", "00nan"),
    (f64::INFINITY, "% f", " inf"),
    (f64::NEG_INFINITY, "% f", "-inf"),
    (f64::NAN, "% f", " nan"),
    (f64::INFINITY, "%.0f", "inf"),
    (f64::NEG_INFINITY, "%.0f", "-inf"),
    (f64::NAN, "%.0f", "nan"),
    (f64::INFINITY, "%+.3E", "+INF"),
    (f64::NEG_INFINITY, "%+.3E", "-INF"),
    (f64::NAN, "%+.3E", "+NAN"),
    (f64::INFINITY, "%08.3g", "00000inf"),
    (f64::NEG_INFINITY, "%08.3g", "-0000inf"),
    (f64::NAN, "%08.3g", "00000nan"),
    (0.0, "%f", "0.000000"),
    (0.0, "%.0f", "0"),
    (0.0, "%.1f", "0.0"),
    (0.0, "%.2f", "0.00"),
    (0.0, "%.10f", "0.0000000000"),
    (0.0, "%e", "0.000000e+00"),
    (0.0, "%.0e", "0e+00"),
    (0.0, "%.1e", "0.0e+00"),
    (0.0, "%.3e", "0.000e+00"),
    (0.0, "%E", "0.000000E+00"),
    (0.0, "%g", "0"),
    (0.0, "%.0g", "0"),
    (0.0, "%.1g", "0"),
    (0.0, "%.2g", "0"),
    (0.0, "%.3g", "0"),
    (0.0, "%.10g", "0"),
    (0.0, "%.17g", "0"),
    (0.0, "%G", "0"),
    (0.0, "%+.3e", "+0.000e+00"),
    (0.0, "% 10.2f|", "      0.00|"),
    (0.0, "%-12g|", "0           |"),
    (0.0, "%012.4e", "000.0000e+00"),
    (0.0, "%+g", "+0"),
    (0.0, "%08.3f", "0000.000"),
    (0.0, "%10.3G|", "         0|"),
    (0.0, "%-10.1f|", "0.0       |"),
    (0.0, "% .2e", " 0.00e+00"),
    (-0.0, "%f", "-0.000000"),
    (-0.0, "%.0f", "-0"),
    (-0.0, "%.1f", "-0.0"),
    (-0.0, "%.2f", "-0.00"),
    (-0.0, "%.10f", "-0.0000000000"),
    (-0.0, "%e", "-0.000000e+00"),
    (-0.0, "%.0e", "-0e+00"),
    (-0.0, "%.1e", "-0.0e+00"),
    (-0.0, "%.3e", "-0.000e+00"),
    (-0.0, "%E", "-0.000000E+00"),
    (-0.0, "%g", "-0"),
    (-0.0, "%.0g", "-0"),
    (-0.0, "%.1g", "-0"),
    (-0.0, "%.2g", "-0"),
    (-0.0, "%.3g", "-0"),
    (-0.0, "%.10g", "-0"),
    (-0.0, "%.17g", "-0"),
    (-0.0, "%G", "-0"),
    (-0.0, "%+.3e", "-0.000e+00"),
    (-0.0, "% 10.2f|", "     -0.00|"),
    (-0.0, "%-12g|", "-0          |"),
    (-0.0, "%012.4e", "-00.0000e+00"),
    (-0.0, "%+g", "-0"),
    (-0.0, "%08.3f", "-000.000"),
    (-0.0, "%10.3G|", "        -0|"),
    (-0.0, "%-10.1f|", "-0.0      |"),
    (-0.0, "% .2e", "-0.00e+00"),
    (1.0, "%f", "1.000000"),
    (1.0, "%.0f", "1"),
    (1.0, "%.1f", "1.0"),
    (1.0, "%.2f", "1.00"),
    (1.0, "%.10f", "1.0000000000"),
    (1.0, "%e", "1.000000e+00"),
    (1.0, "%.0e", "1e+00"),
    (1.0, "%.1e", "1.0e+00"),
    (1.0, "%.3e", "1.000e+00"),
    (1.0, "%E", "1.000000E+00"),
    (1.0, "%g", "1"),
    (1.0, "%.0g", "1"),
    (1.0, "%.1g", "1"),
    (1.0, "%.2g", "1"),
    (1.0, "%.3g", "1"),
    (1.0, "%.10g", "1"),
    (1.0, "%.17g", "1"),
    (1.0, "%G", "1"),
    (1.0, "%+.3e", "+1.000e+00"),
    (1.0, "% 10.2f|", "      1.00|"),
    (1.0, "%-12g|", "1           |"),
    (1.0, "%012.4e", "001.0000e+00"),
    (1.0, "%+g", "+1"),
    (1.0, "%08.3f", "0001.000"),
    (1.0, "%10.3G|", "         1|"),
    (1.0, "%-10.1f|", "1.0       |"),
    (1.0, "% .2e", " 1.00e+00"),
    (-1.0, "%f", "-1.000000"),
    (-1.0, "%.0f", "-1"),
    (-1.0, "%.1f", "-1.0"),
    (-1.0, "%.2f", "-1.00"),
    (-1.0, "%.10f", "-1.0000000000"),
    (-1.0, "%e", "-1.000000e+00"),
    (-1.0, "%.0e", "-1e+00"),
    (-1.0, "%.1e", "-1.0e+00"),
    (-1.0, "%.3e", "-1.000e+00"),
    (-1.0, "%E", "-1.000000E+00"),
    (-1.0, "%g", "-1"),
    (-1.0, "%.0g", "-1"),
    (-1.0, "%.1g", "-1"),
    (-1.0, "%.2g", "-1"),
    (-1.0, "%.3g", "-1"),
    (-1.0, "%.10g", "-1"),
    (-1.0, "%.17g", "-1"),
    (-1.0, "%G", "-1"),
    (-1.0, "%+.3e", "-1.000e+00"),
    (-1.0, "% 10.2f|", "     -1.00|"),
    (-1.0, "%-12g|", "-1          |"),
    (-1.0, "%012.4e", "-01.0000e+00"),
    (-1.0, "%+g", "-1"),
    (-1.0, "%08.3f", "-001.000"),
    (-1.0, "%10.3G|", "        -1|"),
    (-1.0, "%-10.1f|", "-1.0      |"),
    (-1.0, "% .2e", "-1.00e+00"),
    (0.1, "%f", "0.100000"),
    (0.1, "%.0f", "0"),
    (0.1, "%.1f", "0.1"),
    (0.1, "%.2f", "0.10"),
    (0.1, "%.10f", "0.1000000000"),
    (0.1, "%e", "1.000000e-01"),
    (0.1, "%.0e", "1e-01"),
    (0.1, "%.1e", "1.0e-01"),
    (0.1, "%.3e", "1.000e-01"),
    (0.1, "%E", "1.000000E-01"),
    (0.1, "%g", "0.1"),
    (0.1, "%.0g", "0.1"),
    (0.1, "%.1g", "0.1"),
    (0.1, "%.2g", "0.1"),
    (0.1, "%.3g", "0.1"),
    (0.1, "%.10g", "0.1"),
    (0.1, "%.17g", "0.10000000000000001"),
    (0.1, "%G", "0.1"),
    (0.1, "%+.3e", "+1.000e-01"),
    (0.1, "% 10.2f|", "      0.10|"),
    (0.1, "%-12g|", "0.1         |"),
    (0.1, "%012.4e", "001.0000e-01"),
    (0.1, "%+g", "+0.1"),
    (0.1, "%08.3f", "0000.100"),
    (0.1, "%10.3G|", "       0.1|"),
    (0.1, "%-10.1f|", "0.1       |"),
    (0.1, "% .2e", " 1.00e-01"),
    (0.5, "%f", "0.500000"),
    (0.5, "%.0f", "0"),
    (0.5, "%.1f", "0.5"),
    (0.5, "%.2f", "0.50"),
    (0.5, "%.10f", "0.5000000000"),
    (0.5, "%e", "5.000000e-01"),
    (0.5, "%.0e", "5e-01"),
    (0.5, "%.1e", "5.0e-01"),
    (0.5, "%.3e", "5.000e-01"),
    (0.5, "%E", "5.000000E-01"),
    (0.5, "%g", "0.5"),
    (0.5, "%.0g", "0.5"),
    (0.5, "%.1g", "0.5"),
    (0.5, "%.2g", "0.5"),
    (0.5, "%.3g", "0.5"),
    (0.5, "%.10g", "0.5"),
    (0.5, "%.17g", "0.5"),
    (0.5, "%G", "0.5"),
    (0.5, "%+.3e", "+5.000e-01"),
    (0.5, "% 10.2f|", "      0.50|"),
    (0.5, "%-12g|", "0.5         |"),
    (0.5, "%012.4e", "005.0000e-01"),
    (0.5, "%+g", "+0.5"),
    (0.5, "%08.3f", "0000.500"),
    (0.5, "%10.3G|", "       0.5|"),
    (0.5, "%-10.1f|", "0.5       |"),
    (0.5, "% .2e", " 5.00e-01"),
    (1.5, "%f", "1.500000"),
    (1.5, "%.0f", "2"),
    (1.5, "%.1f", "1.5"),
    (1.5, "%.2f", "1.50"),
    (1.5, "%.10f", "1.5000000000"),
    (1.5, "%e", "1.500000e+00"),
    (1.5, "%.0e", "2e+00"),
    (1.5, "%.1e", "1.5e+00"),
    (1.5, "%.3e", "1.500e+00"),
    (1.5, "%E", "1.500000E+00"),
    (1.5, "%g", "1.5"),
    (1.5, "%.0g", "2"),
    (1.5, "%.1g", "2"),
    (1.5, "%.2g", "1.5"),
    (1.5, "%.3g", "1.5"),
    (1.5, "%.10g", "1.5"),
    (1.5, "%.17g", "1.5"),
    (1.5, "%G", "1.5"),
    (1.5, "%+.3e", "+1.500e+00"),
    (1.5, "% 10.2f|", "      1.50|"),
    (1.5, "%-12g|", "1.5         |"),
    (1.5, "%012.4e", "001.5000e+00"),
    (1.5, "%+g", "+1.5"),
    (1.5, "%08.3f", "0001.500"),
    (1.5, "%10.3G|", "       1.5|"),
    (1.5, "%-10.1f|", "1.5       |"),
    (1.5, "% .2e", " 1.50e+00"),
    (2.5, "%f", "2.500000"),
    (2.5, "%.0f", "2"),
    (2.5, "%.1f", "2.5"),
    (2.5, "%.2f", "2.50"),
    (2.5, "%.10f", "2.5000000000"),
    (2.5, "%e", "2.500000e+00"),
    (2.5, "%.0e", "2e+00"),
    (2.5, "%.1e", "2.5e+00"),
    (2.5, "%.3e", "2.500e+00"),
    (2.5, "%E", "2.500000E+00"),
    (2.5, "%g", "2.5"),
    (2.5, "%.0g", "2"),
    (2.5, "%.1g", "2"),
    (2.5, "%.2g", "2.5"),
    (2.5, "%.3g", "2.5"),
    (2.5, "%.10g", "2.5"),
    (2.5, "%.17g", "2.5"),
    (2.5, "%G", "2.5"),
    (2.5, "%+.3e", "+2.500e+00"),
    (2.5, "% 10.2f|", "      2.50|"),
    (2.5, "%-12g|", "2.5         |"),
    (2.5, "%012.4e", "002.5000e+00"),
    (2.5, "%+g", "+2.5"),
    (2.5, "%08.3f", "0002.500"),
    (2.5, "%10.3G|", "       2.5|"),
    (2.5, "%-10.1f|", "2.5       |"),
    (2.5, "% .2e", " 2.50e+00"),
    (0.35, "%f", "0.350000"),
    (0.35, "%.0f", "0"),
    (0.35, "%.1f", "0.3"),
    (0.35, "%.2f", "0.35"),
    (0.35, "%.10f", "0.3500000000"),
    (0.35, "%e", "3.500000e-01"),
    (0.35, "%.0e", "3e-01"),
    (0.35, "%.1e", "3.5e-01"),
    (0.35, "%.3e", "3.500e-01"),
    (0.35, "%E", "3.500000E-01"),
    (0.35, "%g", "0.35"),
    (0.35, "%.0g", "0.3"),
    (0.35, "%.1g", "0.3"),
    (0.35, "%.2g", "0.35"),
    (0.35, "%.3g", "0.35"),
    (0.35, "%.10g", "0.35"),
    (0.35, "%.17g", "0.34999999999999998"),
    (0.35, "%G", "0.35"),
    (0.35, "%+.3e", "+3.500e-01"),
    (0.35, "% 10.2f|", "      0.35|"),
    (0.35, "%-12g|", "0.35        |"),
    (0.35, "%012.4e", "003.5000e-01"),
    (0.35, "%+g", "+0.35"),
    (0.35, "%08.3f", "0000.350"),
    (0.35, "%10.3G|", "      0.35|"),
    (0.35, "%-10.1f|", "0.3       |"),
    (0.35, "% .2e", " 3.50e-01"),
    (2.675, "%f", "2.675000"),
    (2.675, "%.0f", "3"),
    (2.675, "%.1f", "2.7"),
    (2.675, "%.2f", "2.67"),
    (2.675, "%.10f", "2.6750000000"),
    (2.675, "%e", "2.675000e+00"),
    (2.675, "%.0e", "3e+00"),
    (2.675, "%.1e", "2.7e+00"),
    (2.675, "%.3e", "2.675e+00"),
    (2.675, "%E", "2.675000E+00"),
    (2.675, "%g", "2.675"),
    (2.675, "%.0g", "3"),
    (2.675, "%.1g", "3"),
    (2.675, "%.2g", "2.7"),
    (2.675, "%.3g", "2.67"),
    (2.675, "%.10g", "2.675"),
    (2.675, "%.17g", "2.6749999999999998"),
    (2.675, "%G", "2.675"),
    (2.675, "%+.3e", "+2.675e+00"),
    (2.675, "% 10.2f|", "      2.67|"),
    (2.675, "%-12g|", "2.675       |"),
    (2.675, "%012.4e", "002.6750e+00"),
    (2.675, "%+g", "+2.675"),
    (2.675, "%08.3f", "0002.675"),
    (2.675, "%10.3G|", "      2.67|"),
    (2.675, "%-10.1f|", "2.7       |"),
    (2.675, "% .2e", " 2.67e+00"),
    (1.005, "%f", "1.005000"),
    (1.005, "%.0f", "1"),
    (1.005, "%.1f", "1.0"),
    (1.005, "%.2f", "1.00"),
    (1.005, "%.10f", "1.0050000000"),
    (1.005, "%e", "1.005000e+00"),
    (1.005, "%.0e", "1e+00"),
    (1.005, "%.1e", "1.0e+00"),
    (1.005, "%.3e", "1.005e+00"),
    (1.005, "%E", "1.005000E+00"),
    (1.005, "%g", "1.005"),
    (1.005, "%.0g", "1"),
    (1.005, "%.1g", "1"),
    (1.005, "%.2g", "1"),
    (1.005, "%.3g", "1"),
    (1.005, "%.10g", "1.005"),
    (1.005, "%.17g", "1.0049999999999999"),
    (1.005, "%G", "1.005"),
    (1.005, "%+.3e", "+1.005e+00"),
    (1.005, "% 10.2f|", "      1.00|"),
    (1.005, "%-12g|", "1.005       |"),
    (1.005, "%012.4e", "001.0050e+00"),
    (1.005, "%+g", "+1.005"),
    (1.005, "%08.3f", "0001.005"),
    (1.005, "%10.3G|", "         1|"),
    (1.005, "%-10.1f|", "1.0       |"),
    (1.005, "% .2e", " 1.00e+00"),
    (123.456, "%f", "123.456000"),
    (123.456, "%.0f", "123"),
    (123.456, "%.1f", "123.5"),
    (123.456, "%.2f", "123.46"),
    (123.456, "%.10f", "123.4560000000"),
    (123.456, "%e", "1.234560e+02"),
    (123.456, "%.0e", "1e+02"),
    (123.456, "%.1e", "1.2e+02"),
    (123.456, "%.3e", "1.235e+02"),
    (123.456, "%E", "1.234560E+02"),
    (123.456, "%g", "123.456"),
    (123.456, "%.0g", "1e+02"),
    (123.456, "%.1g", "1e+02"),
    (123.456, "%.2g", "1.2e+02"),
    (123.456, "%.3g", "123"),
    (123.456, "%.10g", "123.456"),
    (123.456, "%.17g", "123.456"),
    (123.456, "%G", "123.456"),
    (123.456, "%+.3e", "+1.235e+02"),
    (123.456, "% 10.2f|", "    123.46|"),
    (123.456, "%-12g|", "123.456     |"),
    (123.456, "%012.4e", "001.2346e+02"),
    (123.456, "%+g", "+123.456"),
    (123.456, "%08.3f", "0123.456"),
    (123.456, "%10.3G|", "       123|"),
    (123.456, "%-10.1f|", "123.5     |"),
    (123.456, "% .2e", " 1.23e+02"),
    (-123.456, "%f", "-123.456000"),
    (-123.456, "%.0f", "-123"),
    (-123.456, "%.1f", "-123.5"),
    (-123.456, "%.2f", "-123.46"),
    (-123.456, "%.10f", "-123.4560000000"),
    (-123.456, "%e", "-1.234560e+02"),
    (-123.456, "%.0e", "-1e+02"),
    (-123.456, "%.1e", "-1.2e+02"),
    (-123.456, "%.3e", "-1.235e+02"),
    (-123.456, "%E", "-1.234560E+02"),
    (-123.456, "%g", "-123.456"),
    (-123.456, "%.0g", "-1e+02"),
    (-123.456, "%.1g", "-1e+02"),
    (-123.456, "%.2g", "-1.2e+02"),
    (-123.456, "%.3g", "-123"),
    (-123.456, "%.10g", "-123.456"),
    (-123.456, "%.17g", "-123.456"),
    (-123.456, "%G", "-123.456"),
    (-123.456, "%+.3e", "-1.235e+02"),
    (-123.456, "% 10.2f|", "   -123.46|"),
    (-123.456, "%-12g|", "-123.456    |"),
    (-123.456, "%012.4e", "-01.2346e+02"),
    (-123.456, "%+g", "-123.456"),
    (-123.456, "%08.3f", "-123.456"),
    (-123.456, "%10.3G|", "      -123|"),
    (-123.456, "%-10.1f|", "-123.5    |"),
    (-123.456, "% .2e", "-1.23e+02"),
    (999999.5, "%f", "999999.500000"),
    (999999.5, "%.0f", "1000000"),
    (999999.5, "%.1f", "999999.5"),
    (999999.5, "%.2f", "999999.50"),
    (999999.5, "%.10f", "999999.5000000000"),
    (999999.5, "%e", "9.999995e+05"),
    (999999.5, "%.0e", "1e+06"),
    (999999.5, "%.1e", "1.0e+06"),
    (999999.5, "%.3e", "1.000e+06"),
    (999999.5, "%E", "9.999995E+05"),
    (999999.5, "%g", "1e+06"),
    (999999.5, "%.0g", "1e+06"),
    (999999.5, "%.1g", "1e+06"),
    (999999.5, "%.2g", "1e+06"),
    (999999.5, "%.3g", "1e+06"),
    (999999.5, "%.10g", "999999.5"),
    (999999.5, "%.17g", "999999.5"),
    (999999.5, "%G", "1E+06"),
    (999999.5, "%+.3e", "+1.000e+06"),
    (999999.5, "% 10.2f|", " 999999.50|"),
    (999999.5, "%-12g|", "1e+06       |"),
    (999999.5, "%012.4e", "001.0000e+06"),
    (999999.5, "%+g", "+1e+06"),
    (999999.5, "%08.3f", "999999.500"),
    (999999.5, "%10.3G|", "     1E+06|"),
    (999999.5, "%-10.1f|", "999999.5  |"),
    (999999.5, "% .2e", " 1.00e+06"),
    (99999.95, "%f", "99999.950000"),
    (99999.95, "%.0f", "100000"),
    (99999.95, "%.1f", "99999.9"),
    (99999.95, "%.2f", "99999.95"),
    (99999.95, "%.10f", "99999.9500000000"),
    (99999.95, "%e", "9.999995e+04"),
    (99999.95, "%.0e", "1e+05"),
    (99999.95, "%.1e", "1.0e+05"),
    (99999.95, "%.3e", "1.000e+05"),
    (99999.95, "%E", "9.999995E+04"),
    (99999.95, "%g", "99999.9"),
    (99999.95, "%.0g", "1e+05"),
    (99999.95, "%.1g", "1e+05"),
    (99999.95, "%.2g", "1e+05"),
    (99999.95, "%.3g", "1e+05"),
    (99999.95, "%.10g", "99999.95"),
    (99999.95, "%.17g", "99999.949999999997"),
    (99999.95, "%G", "99999.9"),
    (99999.95, "%+.3e", "+1.000e+05"),
    (99999.95, "% 10.2f|", "  99999.95|"),
    (99999.95, "%-12g|", "99999.9     |"),
    (99999.95, "%012.4e", "001.0000e+05"),
    (99999.95, "%+g", "+99999.9"),
    (99999.95, "%08.3f", "99999.950"),
    (99999.95, "%10.3G|", "     1E+05|"),
    (99999.95, "%-10.1f|", "99999.9   |"),
    (99999.95, "% .2e", " 1.00e+05"),
    (0.0001, "%f", "0.000100"),
    (0.0001, "%.0f", "0"),
    (0.0001, "%.1f", "0.0"),
    (0.0001, "%.2f", "0.00"),
    (0.0001, "%.10f", "0.0001000000"),
    (0.0001, "%e", "1.000000e-04"),
    (0.0001, "%.0e", "1e-04"),
    (0.0001, "%.1e", "1.0e-04"),
    (0.0001, "%.3e", "1.000e-04"),
    (0.0001, "%E", "1.000000E-04"),
    (0.0001, "%g", "0.0001"),
    (0.0001, "%.0g", "0.0001"),
    (0.0001, "%.1g", "0.0001"),
    (0.0001, "%.2g", "0.0001"),
    (0.0001, "%.3g", "0.0001"),
    (0.0001, "%.10g", "0.0001"),
    (0.0001, "%.17g", "0.0001"),
    (0.0001, "%G", "0.0001"),
    (0.0001, "%+.3e", "+1.000e-04"),
    (0.0001, "% 10.2f|", "      0.00|"),
    (0.0001, "%-12g|", "0.0001      |"),
    (0.0001, "%012.4e", "001.0000e-04"),
    (0.0001, "%+g", "+0.0001"),
    (0.0001, "%08.3f", "0000.000"),
    (0.0001, "%10.3G|", "    0.0001|"),
    (0.0001, "%-10.1f|", "0.0       |"),
    (0.0001, "% .2e", " 1.00e-04"),
    (0.00012345678, "%f", "0.000123"),
    (0.00012345678, "%.0f", "0"),
    (0.00012345678, "%.1f", "0.0"),
    (0.00012345678, "%.2f", "0.00"),
    (0.00012345678, "%.10f", "0.0001234568"),
    (0.00012345678, "%e", "1.234568e-04"),
    (0.00012345678, "%.0e", "1e-04"),
    (0.00012345678, "%.1e", "1.2e-04"),
    (0.00012345678, "%.3e", "1.235e-04"),
    (0.00012345678, "%E", "1.234568E-04"),
    (0.00012345678, "%g", "0.000123457"),
    (0.00012345678, "%.0g", "0.0001"),
    (0.00012345678, "%.1g", "0.0001"),
    (0.00012345678, "%.2g", "0.00012"),
    (0.00012345678, "%.3g", "0.000123"),
    (0.00012345678, "%.10g", "0.00012345678"),
    (0.00012345678, "%.17g", "0.00012345678000000001"),
    (0.00012345678, "%G", "0.000123457"),
    (0.00012345678, "%+.3e", "+1.235e-04"),
    (0.00012345678, "% 10.2f|", "      0.00|"),
    (0.00012345678, "%-12g|", "0.000123457 |"),
    (0.00012345678, "%012.4e", "001.2346e-04"),
    (0.00012345678, "%+g", "+0.000123457"),
    (0.00012345678, "%08.3f", "0000.000"),
    (0.00012345678, "%10.3G|", "  0.000123|"),
    (0.00012345678, "%-10.1f|", "0.0       |"),
    (0.00012345678, "% .2e", " 1.23e-04"),
    (9.999995e-05, "%f", "0.000100"),
    (9.999995e-05, "%.0f", "0"),
    (9.999995e-05, "%.1f", "0.0"),
    (9.999995e-05, "%.2f", "0.00"),
    (9.999995e-05, "%.10f", "0.0001000000"),
    (9.999995e-05, "%e", "9.999995e-05"),
    (9.999995e-05, "%.0e", "1e-04"),
    (9.999995e-05, "%.1e", "1.0e-04"),
    (9.999995e-05, "%.3e", "1.000e-04"),
    (9.999995e-05, "%E", "9.999995E-05"),
    (9.999995e-05, "%g", "0.0001"),
    (9.999995e-05, "%.0g", "0.0001"),
    (9.999995e-05, "%.1g", "0.0001"),
    (9.999995e-05, "%.2g", "0.0001"),
    (9.999995e-05, "%.3g", "0.0001"),
    (9.999995e-05, "%.10g", "9.999995e-05"),
    (9.999995e-05, "%.17g", "9.9999950000000001e-05"),
    (9.999995e-05, "%G", "0.0001"),
    (9.999995e-05, "%+.3e", "+1.000e-04"),
    (9.999995e-05, "% 10.2f|", "      0.00|"),
    (9.999995e-05, "%-12g|", "0.0001      |"),
    (9.999995e-05, "%012.4e", "001.0000e-04"),
    (9.999995e-05, "%+g", "+0.0001"),
    (9.999995e-05, "%08.3f", "0000.000"),
    (9.999995e-05, "%10.3G|", "    0.0001|"),
    (9.999995e-05, "%-10.1f|", "0.0       |"),
    (9.999995e-05, "% .2e", " 1.00e-04"),
    (1.0e-05, "%f", "0.000010"),
    (1.0e-05, "%.0f", "0"),
    (1.0e-05, "%.1f", "0.0"),
    (1.0e-05, "%.2f", "0.00"),
    (1.0e-05, "%.10f", "0.0000100000"),
    (1.0e-05, "%e", "1.000000e-05"),
    (1.0e-05, "%.0e", "1e-05"),
    (1.0e-05, "%.1e", "1.0e-05"),
    (1.0e-05, "%.3e", "1.000e-05"),
    (1.0e-05, "%E", "1.000000E-05"),
    (1.0e-05, "%g", "1e-05"),
    (1.0e-05, "%.0g", "1e-05"),
    (1.0e-05, "%.1g", "1e-05"),
    (1.0e-05, "%.2g", "1e-05"),
    (1.0e-05, "%.3g", "1e-05"),
    (1.0e-05, "%.10g", "1e-05"),
    (1.0e-05, "%.17g", "1.0000000000000001e-05"),
    (1.0e-05, "%G", "1E-05"),
    (1.0e-05, "%+.3e", "+1.000e-05"),
    (1.0e-05, "% 10.2f|", "      0.00|"),
    (1.0e-05, "%-12g|", "1e-05       |"),
    (1.0e-05, "%012.4e", "001.0000e-05"),
    (1.0e-05, "%+g", "+1e-05"),
    (1.0e-05, "%08.3f", "0000.000"),
    (1.0e-05, "%10.3G|", "     1E-05|"),
    (1.0e-05, "%-10.1f|", "0.0       |"),
    (1.0e-05, "% .2e", " 1.00e-05"),
    (1.0e-07, "%f", "0.000000"),
    (1.0e-07, "%.0f", "0"),
    (1.0e-07, "%.1f", "0.0"),
    (1.0e-07, "%.2f", "0.00"),
    (1.0e-07, "%.10f", "0.0000001000"),
    (1.0e-07, "%e", "1.000000e-07"),
    (1.0e-07, "%.0e", "1e-07"),
    (1.0e-07, "%.1e", "1.0e-07"),
    (1.0e-07, "%.3e", "1.000e-07"),
    (1.0e-07, "%E", "1.000000E-07"),
    (1.0e-07, "%g", "1e-07"),
    (1.0e-07, "%.0g", "1e-07"),
    (1.0e-07, "%.1g", "1e-07"),
    (1.0e-07, "%.2g", "1e-07"),
    (1.0e-07, "%.3g", "1e-07"),
    (1.0e-07, "%.10g", "1e-07"),
    (1.0e-07, "%.17g", "9.9999999999999995e-08"),
    (1.0e-07, "%G", "1E-07"),
    (1.0e-07, "%+.3e", "+1.000e-07"),
    (1.0e-07, "% 10.2f|", "      0.00|"),
    (1.0e-07, "%-12g|", "1e-07       |"),
    (1.0e-07, "%012.4e", "001.0000e-07"),
    (1.0e-07, "%+g", "+1e-07"),
    (1.0e-07, "%08.3f", "0000.000"),
    (1.0e-07, "%10.3G|", "     1E-07|"),
    (1.0e-07, "%-10.1f|", "0.0       |"),
    (1.0e-07, "% .2e", " 1.00e-07"),
    (123456789.0, "%f", "123456789.000000"),
    (123456789.0, "%.0f", "123456789"),
    (123456789.0, "%.1f", "123456789.0"),
    (123456789.0, "%.2f", "123456789.00"),
    (123456789.0, "%.10f", "123456789.0000000000"),
    (123456789.0, "%e", "1.234568e+08"),
    (123456789.0, "%.0e", "1e+08"),
    (123456789.0, "%.1e", "1.2e+08"),
    (123456789.0, "%.3e", "1.235e+08"),
    (123456789.0, "%E", "1.234568E+08"),
    (123456789.0, "%g", "1.23457e+08"),
    (123456789.0, "%.0g", "1e+08"),
    (123456789.0, "%.1g", "1e+08"),
    (123456789.0, "%.2g", "1.2e+08"),
    (123456789.0, "%.3g", "1.23e+08"),
    (123456789.0, "%.10g", "123456789"),
    (123456789.0, "%.17g", "123456789"),
    (123456789.0, "%G", "1.23457E+08"),
    (123456789.0, "%+.3e", "+1.235e+08"),
    (123456789.0, "% 10.2f|", " 123456789.00|"),
    (123456789.0, "%-12g|", "1.23457e+08 |"),
    (123456789.0, "%012.4e", "001.2346e+08"),
    (123456789.0, "%+g", "+1.23457e+08"),
    (123456789.0, "%08.3f", "123456789.000"),
    (123456789.0, "%10.3G|", "  1.23E+08|"),
    (123456789.0, "%-10.1f|", "123456789.0|"),
    (123456789.0, "% .2e", " 1.23e+08"),
    (1000000000000000.0, "%f", "1000000000000000.000000"),
    (1000000000000000.0, "%.0f", "1000000000000000"),
    (1000000000000000.0, "%.1f", "1000000000000000.0"),
    (1000000000000000.0, "%.2f", "1000000000000000.00"),
    (1000000000000000.0, "%.10f", "1000000000000000.0000000000"),
    (1000000000000000.0, "%e", "1.000000e+15"),
    (1000000000000000.0, "%.0e", "1e+15"),
    (1000000000000000.0, "%.1e", "1.0e+15"),
    (1000000000000000.0, "%.3e", "1.000e+15"),
    (1000000000000000.0, "%E", "1.000000E+15"),
    (1000000000000000.0, "%g", "1e+15"),
    (1000000000000000.0, "%.0g", "1e+15"),
    (1000000000000000.0, "%.1g", "1e+15"),
    (1000000000000000.0, "%.2g", "1e+15"),
    (1000000000000000.0, "%.3g", "1e+15"),
    (1000000000000000.0, "%.10g", "1e+15"),
    (1000000000000000.0, "%.17g", "1000000000000000"),
    (1000000000000000.0, "%G", "1E+15"),
    (1000000000000000.0, "%+.3e", "+1.000e+15"),
    (1000000000000000.0, "% 10.2f|", " 1000000000000000.00|"),
    (1000000000000000.0, "%-12g|", "1e+15       |"),
    (1000000000000000.0, "%012.4e", "001.0000e+15"),
    (1000000000000000.0, "%+g", "+1e+15"),
    (1000000000000000.0, "%08.3f", "1000000000000000.000"),
    (1000000000000000.0, "%10.3G|", "     1E+15|"),
    (1000000000000000.0, "%-10.1f|", "1000000000000000.0|"),
    (1000000000000000.0, "% .2e", " 1.00e+15"),
    (1.0e+16, "%f", "10000000000000000.000000"),
    (1.0e+16, "%.0f", "10000000000000000"),
    (1.0e+16, "%.1f", "10000000000000000.0"),
    (1.0e+16, "%.2f", "10000000000000000.00"),
    (1.0e+16, "%.10f", "10000000000000000.0000000000"),
    (1.0e+16, "%e", "1.000000e+16"),
    (1.0e+16, "%.0e", "1e+16"),
    (1.0e+16, "%.1e", "1.0e+16"),
    (1.0e+16, "%.3e", "1.000e+16"),
    (1.0e+16, "%E", "1.000000E+16"),
    (1.0e+16, "%g", "1e+16"),
    (1.0e+16, "%.0g", "1e+16"),
    (1.0e+16, "%.1g", "1e+16"),
    (1.0e+16, "%.2g", "1e+16"),
    (1.0e+16, "%.3g", "1e+16"),
    (1.0e+16, "%.10g", "1e+16"),
    (1.0e+16, "%.17g", "10000000000000000"),
    (1.0e+16, "%G", "1E+16"),
    (1.0e+16, "%+.3e", "+1.000e+16"),
    (1.0e+16, "% 10.2f|", " 10000000000000000.00|"),
    (1.0e+16, "%-12g|", "1e+16       |"),
    (1.0e+16, "%012.4e", "001.0000e+16"),
    (1.0e+16, "%+g", "+1e+16"),
    (1.0e+16, "%08.3f", "10000000000000000.000"),
    (1.0e+16, "%10.3G|", "     1E+16|"),
    (1.0e+16, "%-10.1f|", "10000000000000000.0|"),
    (1.0e+16, "% .2e", " 1.00e+16"),
    (1.0e+21, "%f", "1000000000000000000000.000000"),
    (1.0e+21, "%.0f", "1000000000000000000000"),
    (1.0e+21, "%.1f", "1000000000000000000000.0"),
    (1.0e+21, "%.2f", "1000000000000000000000.00"),
    (1.0e+21, "%.10f", "1000000000000000000000.0000000000"),
    (1.0e+21, "%e", "1.000000e+21"),
    (1.0e+21, "%.0e", "1e+21"),
    (1.0e+21, "%.1e", "1.0e+21"),
    (1.0e+21, "%.3e", "1.000e+21"),
    (1.0e+21, "%E", "1.000000E+21"),
    (1.0e+21, "%g", "1e+21"),
    (1.0e+21, "%.0g", "1e+21"),
    (1.0e+21, "%.1g", "1e+21"),
    (1.0e+21, "%.2g", "1e+21"),
    (1.0e+21, "%.3g", "1e+21"),
    (1.0e+21, "%.10g", "1e+21"),
    (1.0e+21, "%.17g", "1e+21"),
    (1.0e+21, "%G", "1E+21"),
    (1.0e+21, "%+.3e", "+1.000e+21"),
    (1.0e+21, "% 10.2f|", " 1000000000000000000000.00|"),
    (1.0e+21, "%-12g|", "1e+21       |"),
    (1.0e+21, "%012.4e", "001.0000e+21"),
    (1.0e+21, "%+g", "+1e+21"),
    (1.0e+21, "%08.3f", "1000000000000000000000.000"),
    (1.0e+21, "%10.3G|", "     1E+21|"),
    (1.0e+21, "%-10.1f|", "1000000000000000000000.0|"),
    (1.0e+21, "% .2e", " 1.00e+21"),
    (1.5e+300, "%e", "1.500000e+300"),
    (1.5e+300, "%.0e", "2e+300"),
    (1.5e+300, "%.1e", "1.5e+300"),
    (1.5e+300, "%.3e", "1.500e+300"),
    (1.5e+300, "%E", "1.500000E+300"),
    (1.5e+300, "%g", "1.5e+300"),
    (1.5e+300, "%.0g", "2e+300"),
    (1.5e+300, "%.1g", "2e+300"),
    (1.5e+300, "%.2g", "1.5e+300"),
    (1.5e+300, "%.3g", "1.5e+300"),
    (1.5e+300, "%.10g", "1.5e+300"),
    (1.5e+300, "%.17g", "1.5000000000000001e+300"),
    (1.5e+300, "%G", "1.5E+300"),
    (1.5e+300, "%+.3e", "+1.500e+300"),
    (1.5e+300, "%-12g|", "1.5e+300    |"),
    (1.5e+300, "%012.4e", "01.5000e+300"),
    (1.5e+300, "%+g", "+1.5e+300"),
    (1.5e+300, "%10.3G|", "  1.5E+300|"),
    (1.5e+300, "% .2e", " 1.50e+300"),
    (5.0e-324, "%f", "0.000000"),
    (5.0e-324, "%.0f", "0"),
    (5.0e-324, "%.1f", "0.0"),
    (5.0e-324, "%.2f", "0.00"),
    (5.0e-324, "%.10f", "0.0000000000"),
    (5.0e-324, "%e", "4.940656e-324"),
    (5.0e-324, "%.0e", "5e-324"),
    (5.0e-324, "%.1e", "4.9e-324"),
    (5.0e-324, "%.3e", "4.941e-324"),
    (5.0e-324, "%E", "4.940656E-324"),
    (5.0e-324, "%g", "4.94066e-324"),
    (5.0e-324, "%.0g", "5e-324"),
    (5.0e-324, "%.1g", "5e-324"),
    (5.0e-324, "%.2g", "4.9e-324"),
    (5.0e-324, "%.3g", "4.94e-324"),
    (5.0e-324, "%.10g", "4.940656458e-324"),
    (5.0e-324, "%.17g", "4.9406564584124654e-324"),
    (5.0e-324, "%G", "4.94066E-324"),
    (5.0e-324, "%+.3e", "+4.941e-324"),
    (5.0e-324, "% 10.2f|", "      0.00|"),
    (5.0e-324, "%-12g|", "4.94066e-324|"),
    (5.0e-324, "%012.4e", "04.9407e-324"),
    (5.0e-324, "%+g", "+4.94066e-324"),
    (5.0e-324, "%08.3f", "0000.000"),
    (5.0e-324, "%10.3G|", " 4.94E-324|"),
    (5.0e-324, "%-10.1f|", "0.0       |"),
    (5.0e-324, "% .2e", " 4.94e-324"),
    (2.2250738585072014e-308, "%f", "0.000000"),
    (2.2250738585072014e-308, "%.0f", "0"),
    (2.2250738585072014e-308, "%.1f", "0.0"),
    (2.2250738585072014e-308, "%.2f", "0.00"),
    (2.2250738585072014e-308, "%.10f", "0.0000000000"),
    (2.2250738585072014e-308, "%e", "2.225074e-308"),
    (2.2250738585072014e-308, "%.0e", "2e-308"),
    (2.2250738585072014e-308, "%.1e", "2.2e-308"),
    (2.2250738585072014e-308, "%.3e", "2.225e-308"),
    (2.2250738585072014e-308, "%E", "2.225074E-308"),
    (2.2250738585072014e-308, "%g", "2.22507e-308"),
    (2.2250738585072014e-308, "%.0g", "2e-308"),
    (2.2250738585072014e-308, "%.1g", "2e-308"),
    (2.2250738585072014e-308, "%.2g", "2.2e-308"),
    (2.2250738585072014e-308, "%.3g", "2.23e-308"),
    (2.2250738585072014e-308, "%.10g", "2.225073859e-308"),
    (2.2250738585072014e-308, "%.17g", "2.2250738585072014e-308"),
    (2.2250738585072014e-308, "%G", "2.22507E-308"),
    (2.2250738585072014e-308, "%+.3e", "+2.225e-308"),
    (2.2250738585072014e-308, "% 10.2f|", "      0.00|"),
    (2.2250738585072014e-308, "%-12g|", "2.22507e-308|"),
    (2.2250738585072014e-308, "%012.4e", "02.2251e-308"),
    (2.2250738585072014e-308, "%+g", "+2.22507e-308"),
    (2.2250738585072014e-308, "%08.3f", "0000.000"),
    (2.2250738585072014e-308, "%10.3G|", " 2.23E-308|"),
    (2.2250738585072014e-308, "%-10.1f|", "0.0       |"),
    (2.2250738585072014e-308, "% .2e", " 2.23e-308"),
    (1.7976931348623157e+308, "%e", "1.797693e+308"),
    (1.7976931348623157e+308, "%.0e", "2e+308"),
    (1.7976931348623157e+308, "%.1e", "1.8e+308"),
    (1.7976931348623157e+308, "%.3e", "1.798e+308"),
    (1.7976931348623157e+308, "%E", "1.797693E+308"),
    (1.7976931348623157e+308, "%g", "1.79769e+308"),
    (1.7976931348623157e+308, "%.0g", "2e+308"),
    (1.7976931348623157e+308, "%.1g", "2e+308"),
    (1.7976931348623157e+308, "%.2g", "1.8e+308"),
    (1.7976931348623157e+308, "%.3g", "1.8e+308"),
    (1.7976931348623157e+308, "%.10g", "1.797693135e+308"),
    (1.7976931348623157e+308, "%.17g", "1.7976931348623157e+308"),
    (1.7976931348623157e+308, "%G", "1.79769E+308"),
    (1.7976931348623157e+308, "%+.3e", "+1.798e+308"),
    (1.7976931348623157e+308, "%-12g|", "1.79769e+308|"),
    (1.7976931348623157e+308, "%012.4e", "01.7977e+308"),
    (1.7976931348623157e+308, "%+g", "+1.79769e+308"),
    (1.7976931348623157e+308, "%10.3G|", "  1.8E+308|"),
    (1.7976931348623157e+308, "% .2e", " 1.80e+308"),
    (-1.234e-05, "%f", "-0.000012"),
    (-1.234e-05, "%.0f", "-0"),
    (-1.234e-05, "%.1f", "-0.0"),
    (-1.234e-05, "%.2f", "-0.00"),
    (-1.234e-05, "%.10f", "-0.0000123400"),
    (-1.234e-05, "%e", "-1.234000e-05"),
    (-1.234e-05, "%.0e", "-1e-05"),
    (-1.234e-05, "%.1e", "-1.2e-05"),
    (-1.234e-05, "%.3e", "-1.234e-05"),
    (-1.234e-05, "%E", "-1.234000E-05"),
    (-1.234e-05, "%g", "-1.234e-05"),
    (-1.234e-05, "%.0g", "-1e-05"),
    (-1.234e-05, "%.1g", "-1e-05"),
    (-1.234e-05, "%.2g", "-1.2e-05"),
    (-1.234e-05, "%.3g", "-1.23e-05"),
    (-1.234e-05, "%.10g", "-1.234e-05"),
    (-1.234e-05, "%.17g", "-1.234e-05"),
    (-1.234e-05, "%G", "-1.234E-05"),
    (-1.234e-05, "%+.3e", "-1.234e-05"),
    (-1.234e-05, "% 10.2f|", "     -0.00|"),
    (-1.234e-05, "%-12g|", "-1.234e-05  |"),
    (-1.234e-05, "%012.4e", "-01.2340e-05"),
    (-1.234e-05, "%+g", "-1.234e-05"),
    (-1.234e-05, "%08.3f", "-000.000"),
    (-1.234e-05, "%10.3G|", " -1.23E-05|"),
    (-1.234e-05, "%-10.1f|", "-0.0      |"),
    (-1.234e-05, "% .2e", "-1.23e-05"),
    (9.9999, "%f", "9.999900"),
    (9.9999, "%.0f", "10"),
    (9.9999, "%.1f", "10.0"),
    (9.9999, "%.2f", "10.00"),
    (9.9999, "%.10f", "9.9999000000"),
    (9.9999, "%e", "9.999900e+00"),
    (9.9999, "%.0e", "1e+01"),
    (9.9999, "%.1e", "1.0e+01"),
    (9.9999, "%.3e", "1.000e+01"),
    (9.9999, "%E", "9.999900E+00"),
    (9.9999, "%g", "9.9999"),
    (9.9999, "%.0g", "1e+01"),
    (9.9999, "%.1g", "1e+01"),
    (9.9999, "%.2g", "10"),
    (9.9999, "%.3g", "10"),
    (9.9999, "%.10g", "9.9999"),
    (9.9999, "%.17g", "9.9999000000000002"),
    (9.9999, "%G", "9.9999"),
    (9.9999, "%+.3e", "+1.000e+01"),
    (9.9999, "% 10.2f|", "     10.00|"),
    (9.9999, "%-12g|", "9.9999      |"),
    (9.9999, "%012.4e", "009.9999e+00"),
    (9.9999, "%+g", "+9.9999"),
    (9.9999, "%08.3f", "0010.000"),
    (9.9999, "%10.3G|", "        10|"),
    (9.9999, "%-10.1f|", "10.0      |"),
    (9.9999, "% .2e", " 1.00e+01"),
    (99.99, "%f", "99.990000"),
    (99.99, "%.0f", "100"),
    (99.99, "%.1f", "100.0"),
    (99.99, "%.2f", "99.99"),
    (99.99, "%.10f", "99.9900000000"),
    (99.99, "%e", "9.999000e+01"),
    (99.99, "%.0e", "1e+02"),
    (99.99, "%.1e", "1.0e+02"),
    (99.99, "%.3e", "9.999e+01"),
    (99.99, "%E", "9.999000E+01"),
    (99.99, "%g", "99.99"),
    (99.99, "%.0g", "1e+02"),
    (99.99, "%.1g", "1e+02"),
    (99.99, "%.2g", "1e+02"),
    (99.99, "%.3g", "100"),
    (99.99, "%.10g", "99.99"),
    (99.99, "%.17g", "99.989999999999995"),
    (99.99, "%G", "99.99"),
    (99.99, "%+.3e", "+9.999e+01"),
    (99.99, "% 10.2f|", "     99.99|"),
    (99.99, "%-12g|", "99.99       |"),
    (99.99, "%012.4e", "009.9990e+01"),
    (99.99, "%+g", "+99.99"),
    (99.99, "%08.3f", "0099.990"),
    (99.99, "%10.3G|", "       100|"),
    (99.99, "%-10.1f|", "100.0     |"),
    (99.99, "% .2e", " 1.00e+02"),
    (0.999999949999, "%f", "1.000000"),
    (0.999999949999, "%.0f", "1"),
    (0.999999949999, "%.1f", "1.0"),
    (0.999999949999, "%.2f", "1.00"),
    (0.999999949999, "%.10f", "0.9999999500"),
    (0.999999949999, "%e", "9.999999e-01"),
    (0.999999949999, "%.0e", "1e+00"),
    (0.999999949999, "%.1e", "1.0e+00"),
    (0.999999949999, "%.3e", "1.000e+00"),
    (0.999999949999, "%E", "9.999999E-01"),
    (0.999999949999, "%g", "1"),
    (0.999999949999, "%.0g", "1"),
    (0.999999949999, "%.1g", "1"),
    (0.999999949999, "%.2g", "1"),
    (0.999999949999, "%.3g", "1"),
    (0.999999949999, "%.10g", "0.99999995"),
    (0.999999949999, "%.17g", "0.99999994999899999"),
    (0.999999949999, "%G", "1"),
    (0.999999949999, "%+.3e", "+1.000e+00"),
    (0.999999949999, "% 10.2f|", "      1.00|"),
    (0.999999949999, "%-12g|", "1           |"),
    (0.999999949999, "%012.4e", "001.0000e+00"),
    (0.999999949999, "%+g", "+1"),
    (0.999999949999, "%08.3f", "0001.000"),
    (0.999999949999, "%10.3G|", "         1|"),
    (0.999999949999, "%-10.1f|", "1.0       |"),
    (0.999999949999, "% .2e", " 1.00e+00"),
    (3.14159265358979, "%f", "3.141593"),
    (3.14159265358979, "%.0f", "3"),
    (3.14159265358979, "%.1f", "3.1"),
    (3.14159265358979, "%.2f", "3.14"),
    (3.14159265358979, "%.10f", "3.1415926536"),
    (3.14159265358979, "%e", "3.141593e+00"),
    (3.14159265358979, "%.0e", "3e+00"),
    (3.14159265358979, "%.1e", "3.1e+00"),
    (3.14159265358979, "%.3e", "3.142e+00"),
    (3.14159265358979, "%E", "3.141593E+00"),
    (3.14159265358979, "%g", "3.14159"),
    (3.14159265358979, "%.0g", "3"),
    (3.14159265358979, "%.1g", "3"),
    (3.14159265358979, "%.2g", "3.1"),
    (3.14159265358979, "%.3g", "3.14"),
    (3.14159265358979, "%.10g", "3.141592654"),
    (3.14159265358979, "%.17g", "3.14159265358979"),
    (3.14159265358979, "%G", "3.14159"),
    (3.14159265358979, "%+.3e", "+3.142e+00"),
    (3.14159265358979, "% 10.2f|", "      3.14|"),
    (3.14159265358979, "%-12g|", "3.14159     |"),
    (3.14159265358979, "%012.4e", "003.1416e+00"),
    (3.14159265358979, "%+g", "+3.14159"),
    (3.14159265358979, "%08.3f", "0003.142"),
    (3.14159265358979, "%10.3G|", "      3.14|"),
    (3.14159265358979, "%-10.1f|", "3.1       |"),
    (3.14159265358979, "% .2e", " 3.14e+00"),
];

#[test]
fn doubles_are_formatted_as_printf_formats_them() {
    for (value, template, expected) in CASES {
        assert_eq!(
            format_python_string(template, &[double(*value)], &[]),
            Some(expected.to_string()),
            "{template} of {value:e}"
        );
    }
}

const INTEGER_CASES: &[(&str, &str, &str)] = &[
    ("0", "%d", "0"),
    ("0", "%i", "0"),
    ("0", "%5d|", "    0|"),
    ("0", "%-5d|", "0    |"),
    ("0", "%05d", "00000"),
    ("0", "%+d", "+0"),
    ("0", "% d", " 0"),
    ("0", "%.3d", "000"),
    ("0", "%+05d", "+0000"),
    ("0", "%x", "0"),
    ("0", "%X", "0"),
    ("0", "%o", "0"),
    ("0", "%#x", "0x0"),
    ("0", "%#o", "0o0"),
    ("0", "%#X", "0X0"),
    ("0", "%8.3d|", "     000|"),
    ("0", "%-8.3d|", "000     |"),
    ("0", "%+.2d", "+00"),
    ("0", "%3x|", "  0|"),
    ("0", "%-4o|", "0   |"),
    ("0", "%08x", "00000000"),
    ("0", "%s", "0"),
    ("0", "%5s|", "    0|"),
    ("0", "%-5s|", "0    |"),
    ("0", "%.2s", "0"),
    ("1", "%d", "1"),
    ("1", "%i", "1"),
    ("1", "%5d|", "    1|"),
    ("1", "%-5d|", "1    |"),
    ("1", "%05d", "00001"),
    ("1", "%+d", "+1"),
    ("1", "% d", " 1"),
    ("1", "%.3d", "001"),
    ("1", "%+05d", "+0001"),
    ("1", "%x", "1"),
    ("1", "%X", "1"),
    ("1", "%o", "1"),
    ("1", "%#x", "0x1"),
    ("1", "%#o", "0o1"),
    ("1", "%#X", "0X1"),
    ("1", "%8.3d|", "     001|"),
    ("1", "%-8.3d|", "001     |"),
    ("1", "%+.2d", "+01"),
    ("1", "%3x|", "  1|"),
    ("1", "%-4o|", "1   |"),
    ("1", "%08x", "00000001"),
    ("1", "%s", "1"),
    ("1", "%5s|", "    1|"),
    ("1", "%-5s|", "1    |"),
    ("1", "%.2s", "1"),
    ("-1", "%d", "-1"),
    ("-1", "%i", "-1"),
    ("-1", "%5d|", "   -1|"),
    ("-1", "%-5d|", "-1   |"),
    ("-1", "%05d", "-0001"),
    ("-1", "%+d", "-1"),
    ("-1", "% d", "-1"),
    ("-1", "%.3d", "-001"),
    ("-1", "%+05d", "-0001"),
    ("-1", "%8.3d|", "    -001|"),
    ("-1", "%-8.3d|", "-001    |"),
    ("-1", "%+.2d", "-01"),
    ("-1", "%s", "-1"),
    ("-1", "%5s|", "   -1|"),
    ("-1", "%-5s|", "-1   |"),
    ("-1", "%.2s", "-1"),
    ("42", "%d", "42"),
    ("42", "%i", "42"),
    ("42", "%5d|", "   42|"),
    ("42", "%-5d|", "42   |"),
    ("42", "%05d", "00042"),
    ("42", "%+d", "+42"),
    ("42", "% d", " 42"),
    ("42", "%.3d", "042"),
    ("42", "%+05d", "+0042"),
    ("42", "%x", "2a"),
    ("42", "%X", "2A"),
    ("42", "%o", "52"),
    ("42", "%#x", "0x2a"),
    ("42", "%#o", "0o52"),
    ("42", "%#X", "0X2A"),
    ("42", "%8.3d|", "     042|"),
    ("42", "%-8.3d|", "042     |"),
    ("42", "%+.2d", "+42"),
    ("42", "%3x|", " 2a|"),
    ("42", "%-4o|", "52  |"),
    ("42", "%08x", "0000002a"),
    ("42", "%s", "42"),
    ("42", "%5s|", "   42|"),
    ("42", "%-5s|", "42   |"),
    ("42", "%.2s", "42"),
    ("-42", "%d", "-42"),
    ("-42", "%i", "-42"),
    ("-42", "%5d|", "  -42|"),
    ("-42", "%-5d|", "-42  |"),
    ("-42", "%05d", "-0042"),
    ("-42", "%+d", "-42"),
    ("-42", "% d", "-42"),
    ("-42", "%.3d", "-042"),
    ("-42", "%+05d", "-0042"),
    ("-42", "%8.3d|", "    -042|"),
    ("-42", "%-8.3d|", "-042    |"),
    ("-42", "%+.2d", "-42"),
    ("-42", "%s", "-42"),
    ("-42", "%5s|", "  -42|"),
    ("-42", "%-5s|", "-42  |"),
    ("-42", "%.2s", "-4"),
    ("255", "%d", "255"),
    ("255", "%i", "255"),
    ("255", "%5d|", "  255|"),
    ("255", "%-5d|", "255  |"),
    ("255", "%05d", "00255"),
    ("255", "%+d", "+255"),
    ("255", "% d", " 255"),
    ("255", "%.3d", "255"),
    ("255", "%+05d", "+0255"),
    ("255", "%x", "ff"),
    ("255", "%X", "FF"),
    ("255", "%o", "377"),
    ("255", "%#x", "0xff"),
    ("255", "%#o", "0o377"),
    ("255", "%#X", "0XFF"),
    ("255", "%8.3d|", "     255|"),
    ("255", "%-8.3d|", "255     |"),
    ("255", "%+.2d", "+255"),
    ("255", "%3x|", " ff|"),
    ("255", "%-4o|", "377 |"),
    ("255", "%08x", "000000ff"),
    ("255", "%s", "255"),
    ("255", "%5s|", "  255|"),
    ("255", "%-5s|", "255  |"),
    ("255", "%.2s", "25"),
    ("12345", "%d", "12345"),
    ("12345", "%i", "12345"),
    ("12345", "%5d|", "12345|"),
    ("12345", "%-5d|", "12345|"),
    ("12345", "%05d", "12345"),
    ("12345", "%+d", "+12345"),
    ("12345", "% d", " 12345"),
    ("12345", "%.3d", "12345"),
    ("12345", "%+05d", "+12345"),
    ("12345", "%x", "3039"),
    ("12345", "%X", "3039"),
    ("12345", "%o", "30071"),
    ("12345", "%#x", "0x3039"),
    ("12345", "%#o", "0o30071"),
    ("12345", "%#X", "0X3039"),
    ("12345", "%8.3d|", "   12345|"),
    ("12345", "%-8.3d|", "12345   |"),
    ("12345", "%+.2d", "+12345"),
    ("12345", "%3x|", "3039|"),
    ("12345", "%-4o|", "30071|"),
    ("12345", "%08x", "00003039"),
    ("12345", "%s", "12345"),
    ("12345", "%5s|", "12345|"),
    ("12345", "%-5s|", "12345|"),
    ("12345", "%.2s", "12"),
    ("-12345", "%d", "-12345"),
    ("-12345", "%i", "-12345"),
    ("-12345", "%5d|", "-12345|"),
    ("-12345", "%-5d|", "-12345|"),
    ("-12345", "%05d", "-12345"),
    ("-12345", "%+d", "-12345"),
    ("-12345", "% d", "-12345"),
    ("-12345", "%.3d", "-12345"),
    ("-12345", "%+05d", "-12345"),
    ("-12345", "%8.3d|", "  -12345|"),
    ("-12345", "%-8.3d|", "-12345  |"),
    ("-12345", "%+.2d", "-12345"),
    ("-12345", "%s", "-12345"),
    ("-12345", "%5s|", "-12345|"),
    ("-12345", "%-5s|", "-12345|"),
    ("-12345", "%.2s", "-1"),
];

#[test]
fn integers_are_formatted_as_printf_formats_them() {
    for (value, template, expected) in INTEGER_CASES {
        assert_eq!(
            format_python_string(template, &[FinderType::Int(value.to_string())], &[]),
            Some(expected.to_string()),
            "{template} of {value}"
        );
    }
}
